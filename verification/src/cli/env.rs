//! The environment of a Cloud Run service.
use vstd::prelude::*;
use vstd::string::*;

use crate::cli::gcloud::{lossy, quote, quoted, trimmed, CliError, CommandOutput};
use crate::json::{
    deep_member, items_view, json_parse, list, member_at, members_are_found_by_name, members_view,
    object, parse, text, text_member, Json, JsonView,
};
use crate::text::{
    chars_of, concat, decimal_text, number_text, opt_text, same_text, string_of, texts, trim,
};

verus! {

/// The arguments of `detour env`.
pub struct EnvArgs {
    pub command: EnvCommand,
}

/// Whose environment to print.
pub enum EnvCommand {
    /// That of a Cloud Run service.
    CloudRun(CloudRunEnvArgs),
}

/// Which Cloud Run service to describe, and how to print its environment.
pub struct CloudRunEnvArgs {
    pub service: String,
    pub region: String,
    pub project: Option<String>,
    pub container: Option<String>,
    pub output: String,
}

/// A variable of a container. One without a value is backed by a secret.
#[derive(Debug, PartialEq, Eq)]
pub struct EnvVar {
    pub name: String,
    pub value: Option<String>,
    pub source: Option<String>,
}

/// What an [`EnvVar`] says.
pub struct EnvVarView {
    pub name: Seq<char>,
    pub value: Option<Seq<char>>,
    pub source: Option<Seq<char>>,
}

impl View for EnvVar {
    type V = EnvVarView;

    open spec fn view(&self) -> EnvVarView {
        EnvVarView {
            name: self.name@,
            value: opt_text(self.value),
            source: opt_text(self.source),
        }
    }
}

/// The environment of one container of a service.
#[derive(Debug, PartialEq, Eq)]
pub struct CloudRunProfile {
    pub service: String,
    pub region: String,
    pub project: Option<String>,
    pub container_name: String,
    pub env_vars: Vec<EnvVar>,
}

/// The views of variables.
pub open spec fn vars_view(vars: Seq<EnvVar>) -> Seq<EnvVarView> {
    vars.map_values(|v: EnvVar| v@)
}

// ── Asking gcloud ─────────────────────────────────────────────────────────────

/// The arguments that make `gcloud` describe a service.
pub open spec fn describe_arguments(
    service: Seq<char>,
    region: Seq<char>,
    project: Option<Seq<char>>,
) -> Seq<Seq<char>> {
    let fixed = seq![
        "run"@,
        "services"@,
        "describe"@,
        service,
        "--region"@,
        region,
        "--format=json"@,
    ];
    match project {
        Some(project) => fixed + seq!["--project"@, project],
        None => fixed,
    }
}

/// Make the arguments that make `gcloud` describe a service.
pub fn gcloud_arguments(args: &CloudRunEnvArgs) -> (r: Vec<String>)
    ensures
        texts(r@) == describe_arguments(args.service@, args.region@, opt_text(args.project)),
{
    let mut out: Vec<String> = Vec::new();
    out.push("run".to_string());
    out.push("services".to_string());
    out.push("describe".to_string());
    out.push(args.service.clone());
    out.push("--region".to_string());
    out.push(args.region.clone());
    out.push("--format=json".to_string());
    if let Some(project) = &args.project {
        out.push("--project".to_string());
        out.push(project.clone());
    }
    assert(texts(out@) =~= describe_arguments(args.service@, args.region@, opt_text(args.project)));
    out
}

/// Read the description that `gcloud` printed.
pub fn describe_cloud_run_service(output: &CommandOutput) -> (r: Result<Json, CliError>)
    ensures
        if !output.success {
            r matches Err(e) && e.says(
                "gcloud run services describe failed: "@ + trim(lossy(output.stderr@)),
                None,
            )
        } else {
            match json_parse(output.stdout@) {
                Ok(json) => r matches Ok(service) && service@ == json,
                Err(cause) => r matches Err(e) && e.says(
                    "failed to parse gcloud JSON output"@,
                    Some(cause),
                ),
            }
        },
{
    if !output.success {
        let reason = trimmed(output.stderr.as_slice());
        return Err(
            CliError::new(concat("gcloud run services describe failed: ", reason.as_str())),
        );
    }
    match parse(output.stdout.as_slice()) {
        Ok(json) => Ok(json),
        Err(cause) => Err(
            CliError {
                message: "failed to parse gcloud JSON output".to_string(),
                cause: Some(cause),
            },
        ),
    }
}

// ── Reading a description ─────────────────────────────────────────────────────

/// The containers of a service, where either version of its description has them.
pub open spec fn containers_of(service: JsonView) -> Option<Seq<JsonView>> {
    let direct = deep_member(service, "template"@, "containers"@);
    let found = match direct {
        Some(v) => Some(v),
        None => match deep_member(service, "spec"@, "template"@) {
            Some(template) => deep_member(template, "spec"@, "containers"@),
            None => None,
        },
    };
    match found {
        Some(v) => v.list(),
        None => None,
    }
}

/// A container has the name.
pub open spec fn is_named(container: JsonView, name: Seq<char>) -> bool {
    text_member(container, "name"@) == Some(name)
}

/// The position of the first container that has the name, or that has it not.
pub open spec fn first_named(containers: Seq<JsonView>, name: Seq<char>, named: bool) -> Option<int>
    decreases containers.len(),
{
    if containers.len() == 0 {
        None
    } else if is_named(containers[0], name) == named {
        Some(0)
    } else {
        match first_named(containers.skip(1), name, named) {
            Some(i) => Some(i + 1),
            None => None,
        }
    }
}

/// The container that is meant: the one that is asked for, or else the first that is not the
/// sidecar, or else the first.
pub open spec fn meant_container(
    containers: Seq<JsonView>,
    requested: Option<Seq<char>>,
) -> Result<int, Seq<char>> {
    match requested {
        Some(name) => match first_named(containers, name, true) {
            Some(i) => Ok(i),
            None => Err("container "@ + quoted(name) + " not found in Cloud Run service"@),
        },
        None => match first_named(containers, "detour-sidecar"@, false) {
            Some(i) => Ok(i),
            None => if containers.len() > 0 {
                Ok(0)
            } else {
                Err("Cloud Run service has no containers"@)
            },
        },
    }
}

/// Where a variable without a value comes from.
pub open spec fn source_of(var: JsonView) -> Option<Seq<char>> {
    let direct = match deep_member(var, "valueSource"@, "secretKeyRef"@) {
        Some(reference) => match text_member(reference, "secret"@) {
            Some(secret) => Some(
                "secret:"@ + secret + ":"@ + match text_member(reference, "version"@) {
                    Some(version) => version,
                    None => "latest"@,
                },
            ),
            None => None,
        },
        None => None,
    };
    match direct {
        Some(source) => Some(source),
        None => match deep_member(var, "valueFrom"@, "secretKeyRef"@) {
            Some(reference) => match text_member(reference, "name"@) {
                Some(secret) => Some("secret:"@ + secret),
                None => None,
            },
            None => None,
        },
    }
}

/// The variable that an entry describes; none without a name.
pub open spec fn var_of(entry: JsonView) -> Option<EnvVarView> {
    match text_member(entry, "name"@) {
        Some(name) => Some(
            EnvVarView {
                name,
                value: text_member(entry, "value"@),
                source: source_of(entry),
            },
        ),
        None => None,
    }
}

/// The variables that entries describe.
pub open spec fn vars_of(entries: Seq<JsonView>) -> Seq<EnvVarView>
    decreases entries.len(),
{
    if entries.len() == 0 {
        Seq::empty()
    } else {
        let before = vars_of(entries.drop_last());
        match var_of(entries.last()) {
            Some(var) => before.push(var),
            None => before,
        }
    }
}

/// The name and the variables of a container.
pub open spec fn container_env(container: JsonView) -> (Seq<char>, Seq<EnvVarView>) {
    (
        match text_member(container, "name"@) {
            Some(name) => name,
            None => "<unnamed>"@,
        },
        match container.member("env"@) {
            Some(JsonView::List(entries)) => vars_of(entries),
            _ => Seq::empty(),
        },
    )
}

/// The name and the variables of the container that is meant.
pub open spec fn service_env(service: JsonView, requested: Option<Seq<char>>) -> Result<
    (Seq<char>, Seq<EnvVarView>),
    Seq<char>,
> {
    match containers_of(service) {
        None => Err("could not find containers in Cloud Run service description"@),
        Some(containers) => match meant_container(containers, requested) {
            Ok(i) => Ok(container_env(containers[i])),
            Err(message) => Err(message),
        },
    }
}

/// The views of some JSON values.
pub open spec fn same_items(items: Seq<Json>, views: Seq<JsonView>) -> bool {
    items.len() == views.len() && forall|i: int|
        0 <= i < items.len() ==> (#[trigger] items[i])@ == views[i]
}

proof fn lemma_first_named(containers: Seq<JsonView>, name: Seq<char>, named: bool, i: int)
    requires
        0 <= i <= containers.len(),
        forall|k: int| 0 <= k < i ==> is_named(#[trigger] containers[k], name) != named,
        i < containers.len() ==> is_named(containers[i], name) == named,
    ensures
        first_named(containers, name, named) == if i < containers.len() {
            Some(i)
        } else {
            None
        },
    decreases i,
{
    if i > 0 {
        let rest = containers.skip(1);
        assert forall|k: int| 0 <= k < i - 1 implies is_named(#[trigger] rest[k], name) != named by {
            assert(rest[k] == containers[k + 1]);
        }
        lemma_first_named(rest, name, named, i - 1);
    }
}

fn find_container(containers: &Vec<Json>, name: &str, named: bool, views: Ghost<Seq<JsonView>>) -> (r:
    Option<usize>)
    requires
        same_items(containers@, views@),
    ensures
        match r {
            Some(i) => i < containers@.len() && first_named(views@, name@, named) == Some(i as int),
            None => first_named(views@, name@, named) is None,
        },
{
    let mut i: usize = 0;
    while i < containers.len()
        invariant
            i <= containers@.len(),
            same_items(containers@, views@),
            forall|k: int| 0 <= k < i ==> is_named(#[trigger] views@[k], name@) != named,
        decreases containers@.len() - i,
    {
        assert(containers@[i as int]@ == views@[i as int]);
        let is = match containers[i].get_str("name") {
            Some(s) => same_text(s, name),
            None => false,
        };
        if is == named {
            proof {
                lemma_first_named(views@, name@, named, i as int);
            }
            return Some(i);
        }
        i = i + 1;
    }
    proof {
        lemma_first_named(views@, name@, named, i as int);
    }
    None
}

fn secret_of(var: &Json) -> (r: Option<String>)
    ensures
        opt_text(r) == source_of(var@),
{
    if let Some(reference) = var.get_deep("valueSource", "secretKeyRef") {
        if let Some(secret) = reference.get_str("secret") {
            let version = match reference.get_str("version") {
                Some(version) => version,
                None => "latest",
            };
            let named = concat(concat("secret:", secret).as_str(), ":");
            return Some(concat(named.as_str(), version));
        }
    }
    match var.get_deep("valueFrom", "secretKeyRef") {
        Some(reference) => match reference.get_str("name") {
            Some(secret) => Some(concat("secret:", secret)),
            None => None,
        },
        None => None,
    }
}

/// Read the variable that an entry describes.
pub fn parse_env_var(entry: &Json) -> (r: Option<EnvVar>)
    ensures
        match r {
            Some(var) => var_of(entry@) == Some(var@),
            None => var_of(entry@) is None,
        },
{
    let name = match entry.get_str("name") {
        None => {
            return None;
        },
        Some(name) => name.to_string(),
    };
    let value = match entry.get_str("value") {
        Some(value) => Some(value.to_string()),
        None => None,
    };
    Some(EnvVar { name, value, source: secret_of(entry) })
}

fn read_vars(entries: &Vec<Json>, views: Ghost<Seq<JsonView>>) -> (r: Vec<EnvVar>)
    requires
        same_items(entries@, views@),
    ensures
        vars_view(r@) == vars_of(views@),
{
    let mut out: Vec<EnvVar> = Vec::new();
    let mut i: usize = 0;
    assert(vars_view(out@) =~= vars_of(views@.take(0)));
    while i < entries.len()
        invariant
            i <= entries@.len(),
            same_items(entries@, views@),
            vars_view(out@) == vars_of(views@.take(i as int)),
        decreases entries@.len() - i,
    {
        let ghost before = out@;
        assert(entries@[i as int]@ == views@[i as int]);
        assert(views@.take(i + 1).drop_last() =~= views@.take(i as int));
        if let Some(var) = parse_env_var(&entries[i]) {
            out.push(var);
            assert(vars_view(out@) =~= vars_view(before).push(var@));
        }
        i = i + 1;
    }
    assert(views@.take(i as int) =~= views@);
    out
}

/// Find the container that is meant, and read its name and its variables.
pub fn extract_container_env(service: &Json, requested_container: Option<&str>) -> (r: Result<
    (String, Vec<EnvVar>),
    CliError,
>)
    ensures
        match (
            r,
            service_env(
                service@,
                match requested_container {
                    Some(name) => Some(name@),
                    None => None,
                },
            ),
        ) {
            (Ok((name, vars)), Ok((n, v))) => name@ == n && vars_view(vars@) == v,
            (Err(e), Err(message)) => e.says(message, None),
            _ => false,
        },
{
    let found = match service.get_deep("template", "containers") {
        Some(v) => Some(v),
        None => match service.get_deep("spec", "template") {
            Some(template) => template.get_deep("spec", "containers"),
            None => None,
        },
    };
    let containers = match found {
        Some(v) => v.as_array(),
        None => None,
    };
    let containers = match containers {
        None => {
            return Err(
                CliError::new(
                    "could not find containers in Cloud Run service description".to_string(),
                ),
            );
        },
        Some(containers) => containers,
    };
    let ghost views = containers_of(service@)->Some_0;
    let chosen: usize = match requested_container {
        Some(name) => match find_container(containers, name, true, Ghost(views)) {
            Some(i) => i,
            None => {
                let message = concat(
                    concat("container ", quote(name).as_str()).as_str(),
                    " not found in Cloud Run service",
                );
                return Err(CliError::new(message));
            },
        },
        None => match find_container(containers, "detour-sidecar", false, Ghost(views)) {
            Some(i) => i,
            None => {
                if containers.len() == 0 {
                    return Err(CliError::new("Cloud Run service has no containers".to_string()));
                }
                0
            },
        },
    };
    let container = &containers[chosen];
    assert(container@ == views[chosen as int]);
    let name = match container.get_str("name") {
        Some(name) => name.to_string(),
        None => "<unnamed>".to_string(),
    };
    let vars = match container.get("env") {
        Some(env) => match env.as_array() {
            Some(entries) => read_vars(entries, Ghost(env@->List_0)),
            None => Vec::new(),
        },
        None => Vec::new(),
    };
    assert(vars_view(Seq::<EnvVar>::empty()) =~= Seq::empty());
    Ok((name, vars))
}

/// Take the environment of a service out of what `gcloud` printed.
pub fn load_cloud_run_profile(args: &CloudRunEnvArgs, output: &CommandOutput) -> (r: Result<
    CloudRunProfile,
    CliError,
>)
    ensures
        if !output.success {
            r matches Err(e) && e.says(
                "gcloud run services describe failed: "@ + trim(lossy(output.stderr@)),
                None,
            )
        } else {
            match json_parse(output.stdout@) {
                Err(cause) => r matches Err(e) && e.says(
                    "failed to parse gcloud JSON output"@,
                    Some(cause),
                ),
                Ok(json) => match service_env(json, opt_text(args.container)) {
                    Err(message) => r matches Err(e) && e.says(message, None),
                    Ok((name, vars)) => r matches Ok(profile) && profile.service == args.service
                        && profile.region == args.region && opt_text(profile.project) == opt_text(
                        args.project,
                    ) && profile.container_name@ == name && vars_view(profile.env_vars@) == vars,
                },
            }
        },
{
    let service = match describe_cloud_run_service(output) {
        Ok(service) => service,
        Err(e) => {
            return Err(e);
        },
    };
    let requested: Option<&str> = match &args.container {
        Some(name) => Some(name.as_str()),
        None => None,
    };
    match extract_container_env(&service, requested) {
        Err(e) => Err(e),
        Ok((container_name, env_vars)) => Ok(
            CloudRunProfile {
                service: args.service.clone(),
                region: args.region.clone(),
                project: match &args.project {
                    Some(project) => Some(project.clone()),
                    None => None,
                },
                container_name,
                env_vars,
            },
        ),
    }
}

// ── Printing ──────────────────────────────────────────────────────────────────

/// What stands for a single quote inside single quotes: the quotes are closed, a quoted single
/// quote follows, and they are opened again.
pub open spec fn quoted_quote() -> Seq<char> {
    seq!['\'', '"', '\'', '"', '\'']
}

/// A text as it stands inside single quotes.
pub open spec fn escaped(s: Seq<char>) -> Seq<char>
    decreases s.len(),
{
    if s.len() == 0 {
        Seq::empty()
    } else if s[0] == '\'' {
        quoted_quote() + escaped(s.skip(1))
    } else {
        seq![s[0]] + escaped(s.skip(1))
    }
}

/// A text as one word of a shell.
pub open spec fn shell_word(s: Seq<char>) -> Seq<char> {
    seq!['\''] + escaped(s) + seq!['\'']
}

/// Write a text as one word of a shell.
pub fn shell_escape(value: &str) -> (r: String)
    ensures
        r@ == shell_word(value@),
{
    let chars = chars_of(value);
    let mut out: Vec<char> = vec!['\''];
    let mut i: usize = 0;
    let ghost all = value@;
    assert(all.skip(0) =~= all);
    assert(out@ + escaped(all.skip(0)) =~= seq!['\''] + escaped(all));
    while i < chars.len()
        invariant
            i <= chars@.len(),
            chars@ == all,
            out@ + escaped(all.skip(i as int)) == seq!['\''] + escaped(all),
        decreases chars@.len() - i,
    {
        let ghost before = out@;
        assert(all.skip(i as int)[0] == all[i as int]);
        assert(all.skip(i as int).skip(1) =~= all.skip(i + 1));
        if chars[i] == '\'' {
            out.push('\'');
            out.push('"');
            out.push('\'');
            out.push('"');
            out.push('\'');
            assert(out@ =~= before + quoted_quote());
            assert(out@ + escaped(all.skip(i + 1)) =~= before + escaped(all.skip(i as int)));
        } else {
            out.push(chars[i]);
            assert(out@ + escaped(all.skip(i + 1)) =~= before + escaped(all.skip(i as int)));
        }
        i = i + 1;
    }
    assert(all.skip(i as int) =~= Seq::empty());
    out.push('\'');
    assert(out@ =~= shell_word(value@));
    string_of(out.as_slice())
}

/// Where a shell stands while it reads a word.
pub enum Quoting {
    Bare,
    Single,
    Double,
}

/// The word that a shell reads, as far as quotes go: what stands between single quotes, and
/// between double quotes, is taken as it is. None if a quote is left open.
pub open spec fn shell_read(s: Seq<char>, quoting: Quoting) -> Option<Seq<char>>
    decreases s.len(),
{
    if s.len() == 0 {
        if quoting is Bare {
            Some(Seq::empty())
        } else {
            None
        }
    } else {
        let rest = s.skip(1);
        match (quoting, s[0]) {
            (Quoting::Bare, '\'') => shell_read(rest, Quoting::Single),
            (Quoting::Bare, '"') => shell_read(rest, Quoting::Double),
            (Quoting::Single, '\'') => shell_read(rest, Quoting::Bare),
            (Quoting::Double, '"') => shell_read(rest, Quoting::Bare),
            (_, c) => match shell_read(rest, quoting) {
                Some(word) => Some(seq![c] + word),
                None => None,
            },
        }
    }
}

proof fn lemma_escaped_reads_back(s: Seq<char>)
    ensures
        shell_read(escaped(s) + seq!['\''], Quoting::Single) == Some(s),
    decreases s.len(),
{
    let close = seq!['\''];
    if s.len() == 0 {
        assert(escaped(s) + close =~= close);
        assert(close.skip(1) =~= Seq::empty());
        assert(shell_read(Seq::empty(), Quoting::Bare) == Some(Seq::<char>::empty()));
        assert(s =~= Seq::empty());
    } else {
        let rest = s.skip(1);
        lemma_escaped_reads_back(rest);
        let tail = escaped(rest) + close;
        assert(seq![s[0]] + rest =~= s);
        if s[0] == '\'' {
            let w = quoted_quote() + tail;
            assert(escaped(s) + close =~= w);
            let w1 = w.skip(1);
            let w2 = w1.skip(1);
            let w3 = w2.skip(1);
            let w4 = w3.skip(1);
            let w5 = w4.skip(1);
            assert(w5 =~= tail);
            assert(w[0] == '\'' && w1[0] == '"' && w2[0] == '\'' && w3[0] == '"' && w4[0] == '\'');
            assert(shell_read(w4, Quoting::Bare) == shell_read(w5, Quoting::Single));
            assert(shell_read(w3, Quoting::Double) == shell_read(w4, Quoting::Bare));
            assert(shell_read(w2, Quoting::Double) == Some(seq!['\''] + rest));
            assert(shell_read(w1, Quoting::Bare) == shell_read(w2, Quoting::Double));
            assert(shell_read(w, Quoting::Single) == shell_read(w1, Quoting::Bare));
        } else {
            let w = seq![s[0]] + tail;
            assert(escaped(s) + close =~= w);
            assert(w.skip(1) =~= tail);
            assert(shell_read(w, Quoting::Single) == Some(seq![s[0]] + rest));
        }
    }
}

/// A shell reads back what was escaped, whatever it holds.
pub proof fn escaped_word_reads_back(s: Seq<char>)
    ensures
        shell_read(shell_word(s), Quoting::Bare) == Some(s),
{
    lemma_escaped_reads_back(s);
    assert(shell_word(s).skip(1) =~= escaped(s) + seq!['\'']);
}

/// The variables that have a value, or those that have none.
pub open spec fn vars_with(vars: Seq<EnvVarView>, value: bool) -> Seq<EnvVarView>
    decreases vars.len(),
{
    if vars.len() == 0 {
        Seq::empty()
    } else {
        let before = vars_with(vars.drop_last(), value);
        if vars.last().value is Some == value {
            before.push(vars.last())
        } else {
            before
        }
    }
}

/// Every variable either has a value or is reported as one that has none.
pub proof fn no_variable_is_lost(vars: Seq<EnvVarView>)
    ensures
        vars_with(vars, true).len() + vars_with(vars, false).len() == vars.len(),
        forall|v: EnvVarView| #[trigger]
            vars.contains(v) <==> vars_with(vars, v.value is Some).contains(v),
    decreases vars.len(),
{
    if vars.len() > 0 {
        let front = vars.drop_last();
        let last = vars.last();
        no_variable_is_lost(front);
        assert forall|v: EnvVarView| #[trigger]
            vars.contains(v) <==> vars_with(vars, v.value is Some).contains(v) by {
            let kept = vars_with(front, v.value is Some);
            assert(vars.contains(v) <==> front.contains(v) || v == last) by {
                assert(vars =~= front.push(last));
                if front.contains(v) {
                    let i = choose|i: int| 0 <= i < front.len() && front[i] == v;
                    assert(vars[i] == v);
                }
                if v == last {
                    assert(vars[vars.len() - 1] == v);
                }
            }
            assert(kept.push(last).contains(v) <==> kept.contains(v) || v == last) by {
                if kept.contains(v) {
                    let i = choose|i: int| 0 <= i < kept.len() && kept[i] == v;
                    assert(kept.push(last)[i] == v);
                }
                assert(kept.push(last)[kept.len() as int] == last);
            }
        }
    }
}

/// The lines that set variables in a shell.
pub open spec fn export_line(var: EnvVarView) -> Seq<char> {
    "export "@ + var.name + "="@ + shell_word(var.value->Some_0)
}

/// Members with one more, or with another value under the same name.
pub open spec fn with_member(
    members: Seq<(Seq<char>, JsonView)>,
    name: Seq<char>,
    value: JsonView,
) -> Seq<(Seq<char>, JsonView)>
    decreases members.len(),
{
    if members.len() == 0 {
        seq![(name, value)]
    } else if members[0].0 == name {
        seq![(name, value)] + members.skip(1)
    } else {
        seq![members[0]] + with_member(members.skip(1), name, value)
    }
}

/// The variables as members; of two with one name the later counts.
pub open spec fn env_members(vars: Seq<EnvVarView>) -> Seq<(Seq<char>, JsonView)>
    decreases vars.len(),
{
    if vars.len() == 0 {
        Seq::empty()
    } else {
        with_member(
            env_members(vars.drop_last()),
            vars.last().name,
            JsonView::Text(vars.last().value->Some_0),
        )
    }
}

/// A text, or nothing.
pub open spec fn text_or_null(text: Option<Seq<char>>) -> JsonView {
    match text {
        Some(s) => JsonView::Text(s),
        None => JsonView::Null,
    }
}

/// What is said of a variable without a value.
pub open spec fn unresolved_entry(var: EnvVarView) -> JsonView {
    JsonView::Object(
        seq![("name"@, JsonView::Text(var.name)), ("source"@, text_or_null(var.source))],
    )
}

/// The environment of a container as JSON.
pub open spec fn env_body(
    service: Seq<char>,
    region: Seq<char>,
    project: Option<Seq<char>>,
    container: Seq<char>,
    vars: Seq<EnvVarView>,
) -> JsonView {
    JsonView::Object(
        seq![
            ("service"@, JsonView::Text(service)),
            ("region"@, JsonView::Text(region)),
            ("project"@, text_or_null(project)),
            ("container"@, JsonView::Text(container)),
            ("env"@, JsonView::Object(env_members(vars_with(vars, true)))),
            (
                "unresolved"@,
                JsonView::List(
                    vars_with(vars, false).map_values(|v: EnvVarView| unresolved_entry(v)),
                ),
            ),
        ],
    )
}

/// The line about one variable without a value.
pub open spec fn unresolved_line(var: EnvVarView) -> Seq<char> {
    "  "@ + var.name + " ("@ + match var.source {
        Some(source) => source,
        None => "unknown source"@,
    } + ")"@
}

/// What is said of variables without a value: nothing if there are none.
pub open spec fn unresolved_notes(vars: Seq<EnvVarView>, container: Seq<char>) -> Seq<Seq<char>> {
    let missing = vars_with(vars, false);
    if missing.len() == 0 {
        Seq::empty()
    } else {
        seq![
            Seq::empty(),
            "Skipped "@ + decimal_text(missing.len()) + " unresolved env var(s) from container "@
                + container + "."@,
            "These are usually secret-backed values that Cloud Run does not return via describe."@,
        ] + missing.map_values(|v: EnvVarView| unresolved_line(v))
    }
}

/// What to print of an environment.
pub struct EnvReport {
    /// Lines for the standard output.
    pub lines: Vec<String>,
    /// A JSON value for the standard output.
    pub body: Option<Json>,
    /// Lines for the standard error.
    pub notes: Vec<String>,
}

fn resolved_and_not(vars: &Vec<EnvVar>) -> (r: (Vec<usize>, Vec<usize>))
    ensures
        r.0@.len() == vars_with(vars_view(vars@), true).len(),
        r.1@.len() == vars_with(vars_view(vars@), false).len(),
        forall|i: int|
            0 <= i < r.0@.len() ==> (#[trigger] r.0@[i]) < vars@.len() && vars@[r.0@[i] as int]@
                == vars_with(vars_view(vars@), true)[i] && vars@[r.0@[i] as int].value is Some,
        forall|i: int|
            0 <= i < r.1@.len() ==> (#[trigger] r.1@[i]) < vars@.len() && vars@[r.1@[i] as int]@
                == vars_with(vars_view(vars@), false)[i],
{
    let ghost all = vars_view(vars@);
    let mut with: Vec<usize> = Vec::new();
    let mut without: Vec<usize> = Vec::new();
    let mut i: usize = 0;
    while i < vars.len()
        invariant
            i <= vars@.len(),
            all == vars_view(vars@),
            with@.len() == vars_with(all.take(i as int), true).len(),
            without@.len() == vars_with(all.take(i as int), false).len(),
            forall|k: int|
                0 <= k < with@.len() ==> (#[trigger] with@[k]) < vars@.len() && vars@[with@[
                    k
                ] as int]@ == vars_with(all.take(i as int), true)[k] && vars@[with@[
                    k
                ] as int].value is Some,
            forall|k: int|
                0 <= k < without@.len() ==> (#[trigger] without@[k]) < vars@.len()
                    && vars@[without@[k] as int]@ == vars_with(all.take(i as int), false)[k],
        decreases vars@.len() - i,
    {
        assert(all.take(i + 1).drop_last() =~= all.take(i as int));
        assert(all.take(i + 1).last() == vars@[i as int]@);
        if vars[i].value.is_some() {
            with.push(i);
        } else {
            without.push(i);
        }
        i = i + 1;
    }
    assert(all.take(i as int) =~= all);
    (with, without)
}

fn export_lines(vars: &Vec<EnvVar>, with: &Vec<usize>) -> (r: Vec<String>)
    requires
        forall|i: int|
            0 <= i < with@.len() ==> (#[trigger] with@[i]) < vars@.len() && vars@[with@[
                i
            ] as int].value is Some,
    ensures
        r@.len() == with@.len(),
        forall|i: int|
            0 <= i < r@.len() ==> (#[trigger] r@[i])@ == export_line(vars@[with@[i] as int]@),
{
    let mut out: Vec<String> = Vec::new();
    let mut i: usize = 0;
    while i < with.len()
        invariant
            i <= with@.len(),
            out@.len() == i,
            forall|k: int|
                0 <= k < with@.len() ==> (#[trigger] with@[k]) < vars@.len() && vars@[with@[
                    k
                ] as int].value is Some,
            forall|k: int|
                0 <= k < i ==> (#[trigger] out@[k])@ == export_line(vars@[with@[k] as int]@),
        decreases with@.len() - i,
    {
        assert(with@[i as int] < vars@.len());
        let var = &vars[with[i]];
        let value = match &var.value {
            Some(value) => shell_escape(value.as_str()),
            None => String::new(),
        };
        let head = concat(concat("export ", var.name.as_str()).as_str(), "=");
        out.push(concat(head.as_str(), value.as_str()));
        i = i + 1;
    }
    out
}

fn put_member(members: &mut Vec<(String, Json)>, name: &str, value: &str)
    ensures
        members_view(final(members)@) == with_member(
            members_view(old(members)@),
            name@,
            JsonView::Text(value@),
        ),
{
    let ghost all = members_view(members@);
    let mut i: usize = 0;
    assert(all.take(0) + with_member(all.skip(0), name@, JsonView::Text(value@)) =~= with_member(
        all,
        name@,
        JsonView::Text(value@),
    )) by {
        assert(all.skip(0) =~= all);
    }
    while i < members.len()
        invariant
            i <= members@.len(),
            members@ == old(members)@,
            all == members_view(old(members)@),
            all.take(i as int) + with_member(all.skip(i as int), name@, JsonView::Text(value@))
                == with_member(all, name@, JsonView::Text(value@)),
        decreases members@.len() - i,
    {
        assert(all.skip(i as int)[0] == all[i as int]);
        assert(all[i as int].0 == members@[i as int].0@);
        assert(all.skip(i as int).skip(1) =~= all.skip(i + 1));
        if same_text(members[i].0.as_str(), name) {
            let _ = members.remove(i);
            members.insert(i, (name.to_string(), text(value)));
            assert(members_view(members@) =~= all.take(i as int) + (seq![
                (name@, JsonView::Text(value@)),
            ] + all.skip(i + 1)));
            return;
        }
        assert(all.take(i + 1) + with_member(all.skip(i + 1), name@, JsonView::Text(value@))
            =~= all.take(i as int) + (seq![all[i as int]] + with_member(
            all.skip(i + 1),
            name@,
            JsonView::Text(value@),
        )));
        i = i + 1;
    }
    members.push((name.to_string(), text(value)));
    assert(all.skip(i as int) =~= Seq::empty());
    assert(members_view(members@) =~= all.take(i as int) + seq![(name@, JsonView::Text(value@))]);
}

fn json_or_null(s: &Option<String>) -> (r: Json)
    ensures
        r@ == text_or_null(opt_text(*s)),
{
    match s {
        Some(s) => text(s.as_str()),
        None => Json::Null,
    }
}

fn env_json(args: &CloudRunEnvArgs, profile: &CloudRunProfile, with: &Vec<usize>, without: &Vec<usize>) -> (r:
    Json)
    requires
        with@.len() == vars_with(vars_view(profile.env_vars@), true).len(),
        without@.len() == vars_with(vars_view(profile.env_vars@), false).len(),
        forall|i: int|
            0 <= i < with@.len() ==> (#[trigger] with@[i]) < profile.env_vars@.len()
                && profile.env_vars@[with@[i] as int]@ == vars_with(
                vars_view(profile.env_vars@),
                true,
            )[i] && profile.env_vars@[with@[i] as int].value is Some,
        forall|i: int|
            0 <= i < without@.len() ==> (#[trigger] without@[i]) < profile.env_vars@.len()
                && profile.env_vars@[without@[i] as int]@ == vars_with(
                vars_view(profile.env_vars@),
                false,
            )[i],
    ensures
        r@ == env_body(
            args.service@,
            args.region@,
            opt_text(args.project),
            profile.container_name@,
            vars_view(profile.env_vars@),
        ),
{
    let vars = &profile.env_vars;
    let ghost found = vars_with(vars_view(vars@), true);
    let ghost missing = vars_with(vars_view(vars@), false);
    let mut env: Vec<(String, Json)> = Vec::new();
    let mut i: usize = 0;
    assert(members_view(env@) =~= env_members(found.take(0)));
    while i < with.len()
        invariant
            i <= with@.len(),
            *vars == profile.env_vars,
            found == vars_with(vars_view(vars@), true),
            with@.len() == found.len(),
            forall|k: int|
                0 <= k < with@.len() ==> (#[trigger] with@[k]) < vars@.len() && vars@[with@[
                    k
                ] as int]@ == found[k] && vars@[with@[k] as int].value is Some,
            members_view(env@) == env_members(found.take(i as int)),
        decreases with@.len() - i,
    {
        assert(with@[i as int] < vars@.len());
        let var = &vars[with[i]];
        assert(var@ == found[i as int]);
        assert(found.take(i + 1).drop_last() =~= found.take(i as int));
        if let Some(value) = &var.value {
            put_member(&mut env, var.name.as_str(), value.as_str());
        }
        i = i + 1;
    }
    assert(found.take(i as int) =~= found);
    let mut unresolved: Vec<Json> = Vec::new();
    let ghost entries = missing.map_values(|v: EnvVarView| unresolved_entry(v));
    let mut j: usize = 0;
    while j < without.len()
        invariant
            j <= without@.len(),
            *vars == profile.env_vars,
            missing == vars_with(vars_view(vars@), false),
            entries == missing.map_values(|v: EnvVarView| unresolved_entry(v)),
            without@.len() == missing.len(),
            forall|k: int|
                0 <= k < without@.len() ==> (#[trigger] without@[k]) < vars@.len()
                    && vars@[without@[k] as int]@ == missing[k],
            items_view(unresolved@) == entries.take(j as int),
        decreases without@.len() - j,
    {
        assert(without@[j as int] < vars@.len());
        let var = &vars[without[j]];
        assert(var@ == missing[j as int]);
        let ghost before = unresolved@;
        let mut entry: Vec<(String, Json)> = Vec::new();
        entry.push(("name".to_string(), text(var.name.as_str())));
        entry.push(("source".to_string(), json_or_null(&var.source)));
        assert(members_view(entry@) =~= unresolved_entry(var@)->Object_0);
        unresolved.push(object(entry));
        assert(items_view(unresolved@) =~= items_view(before).push(entries[j as int]));
        assert(entries.take(j + 1) =~= entries.take(j as int).push(entries[j as int]));
        j = j + 1;
    }
    assert(entries.take(j as int) =~= entries);
    let mut members: Vec<(String, Json)> = Vec::new();
    members.push(("service".to_string(), text(args.service.as_str())));
    members.push(("region".to_string(), text(args.region.as_str())));
    members.push(("project".to_string(), json_or_null(&args.project)));
    members.push(("container".to_string(), text(profile.container_name.as_str())));
    members.push(("env".to_string(), object(env)));
    members.push(("unresolved".to_string(), list(unresolved)));
    assert(members_view(members@) =~= env_body(
        args.service@,
        args.region@,
        opt_text(args.project),
        profile.container_name@,
        vars_view(profile.env_vars@),
    )->Object_0);
    object(members)
}

fn notes_of(profile: &CloudRunProfile, without: &Vec<usize>) -> (r: Vec<String>)
    requires
        without@.len() == vars_with(vars_view(profile.env_vars@), false).len(),
        forall|i: int|
            0 <= i < without@.len() ==> (#[trigger] without@[i]) < profile.env_vars@.len()
                && profile.env_vars@[without@[i] as int]@ == vars_with(
                vars_view(profile.env_vars@),
                false,
            )[i],
    ensures
        texts(r@) == unresolved_notes(vars_view(profile.env_vars@), profile.container_name@),
{
    let vars = &profile.env_vars;
    let ghost missing = vars_with(vars_view(vars@), false);
    let ghost said = missing.map_values(|v: EnvVarView| unresolved_line(v));
    let mut out: Vec<String> = Vec::new();
    if without.len() == 0 {
        assert(texts(out@) =~= Seq::empty());
        return out;
    }
    let count = concat("Skipped ", number_text(without.len() as u64).as_str());
    let count = concat(count.as_str(), " unresolved env var(s) from container ");
    let count = concat(concat(count.as_str(), profile.container_name.as_str()).as_str(), ".");
    out.push(String::new());
    out.push(count);
    out.push(
        "These are usually secret-backed values that Cloud Run does not return via describe.".to_string(),
    );
    let ghost head = texts(out@);
    let mut i: usize = 0;
    assert(texts(out@) =~= head + said.take(0));
    while i < without.len()
        invariant
            i <= without@.len(),
            *vars == profile.env_vars,
            missing == vars_with(vars_view(vars@), false),
            said == missing.map_values(|v: EnvVarView| unresolved_line(v)),
            without@.len() == missing.len(),
            forall|k: int|
                0 <= k < without@.len() ==> (#[trigger] without@[k]) < vars@.len()
                    && vars@[without@[k] as int]@ == missing[k],
            texts(out@) == head + said.take(i as int),
        decreases without@.len() - i,
    {
        assert(without@[i as int] < vars@.len());
        let var = &vars[without[i]];
        assert(var@ == missing[i as int]);
        let ghost before = out@;
        let source: &str = match &var.source {
            Some(source) => source.as_str(),
            None => "unknown source",
        };
        let line = concat(concat("  ", var.name.as_str()).as_str(), " (");
        let line = concat(concat(line.as_str(), source).as_str(), ")");
        out.push(line);
        assert(texts(out@) =~= texts(before).push(said[i as int]));
        assert(head + said.take(i + 1) =~= (head + said.take(i as int)).push(said[i as int]));
        i = i + 1;
    }
    assert(said.take(i as int) =~= said);
    assert(texts(out@) =~= unresolved_notes(
        vars_view(profile.env_vars@),
        profile.container_name@,
    ));
    out
}

/// Decide what to print of the environment of a container: lines that set its variables in a
/// shell, or JSON. Variables without a value are named apart.
pub fn run_cloud_run(args: &CloudRunEnvArgs, profile: &CloudRunProfile) -> (r: Result<
    EnvReport,
    CliError,
>)
    ensures
        ({
            let vars = vars_view(profile.env_vars@);
            if args.output@ == "shell"@ {
                &&& r matches Ok(report)
                &&& texts(report.lines@) == vars_with(vars, true).map_values(
                    |v: EnvVarView| export_line(v),
                )
                &&& report.body is None
                &&& texts(report.notes@) == unresolved_notes(vars, profile.container_name@)
            } else if args.output@ == "json"@ {
                &&& r matches Ok(report)
                &&& report.lines@.len() == 0
                &&& report.body matches Some(body)
                &&& body@ == env_body(
                    args.service@,
                    args.region@,
                    opt_text(args.project),
                    profile.container_name@,
                    vars,
                )
                &&& texts(report.notes@) == unresolved_notes(vars, profile.container_name@)
            } else {
                &&& r matches Err(e)
                &&& e.says(
                    "unsupported output format "@ + quoted(args.output@)
                        + ": expected shell or json"@,
                    None,
                )
            }
        }),
{
    let (with, without) = resolved_and_not(&profile.env_vars);
    if same_text(args.output.as_str(), "shell") {
        let lines = export_lines(&profile.env_vars, &with);
        assert(texts(lines@) =~= vars_with(vars_view(profile.env_vars@), true).map_values(
            |v: EnvVarView| export_line(v),
        ));
        Ok(EnvReport { lines, body: None, notes: notes_of(profile, &without) })
    } else if same_text(args.output.as_str(), "json") {
        let body = env_json(args, profile, &with, &without);
        Ok(EnvReport { lines: Vec::new(), body: Some(body), notes: notes_of(profile, &without) })
    } else {
        let message = concat(
            concat("unsupported output format ", quote(args.output.as_str()).as_str()).as_str(),
            ": expected shell or json",
        );
        Err(CliError::new(message))
    }
}

// ── Laws ──────────────────────────────────────────────────────────────────────

/// Every entry of a container that has a name is read, with its name, its value and where it comes
/// from, in the order of the container, and nothing else is.
pub proof fn every_named_entry_is_read(entries: Seq<JsonView>)
    ensures
        vars_of(entries) == entries.filter(
            |e: JsonView| e.member("name"@) matches Some(JsonView::Text(_)),
        ).map_values(
            |e: JsonView|
                EnvVarView {
                    name: e.member("name"@)->Some_0->Text_0,
                    value: match e.member("value"@) {
                        Some(JsonView::Text(value)) => Some(value),
                        _ => None,
                    },
                    source: source_of(e),
                },
        ),
    decreases entries.len(),
{
    reveal(Seq::filter);
    let pred = |e: JsonView| e.member("name"@) matches Some(JsonView::Text(_));
    let var = |e: JsonView|
        EnvVarView {
            name: e.member("name"@)->Some_0->Text_0,
            value: match e.member("value"@) {
                Some(JsonView::Text(value)) => Some(value),
                _ => None,
            },
            source: source_of(e),
        };
    if entries.len() == 0 {
        assert(vars_of(entries) =~= entries.filter(pred).map_values(var));
    } else {
        let front = entries.drop_last();
        let last = entries.last();
        every_named_entry_is_read(front);
        let before = front.filter(pred);
        if pred(last) {
            assert(var_of(last) == Some(var(last)));
            assert(before.push(last).map_values(var) =~= before.map_values(var).push(var(last)));
        } else {
            assert(var_of(last) is None);
        }
        assert(vars_of(entries) =~= entries.filter(pred).map_values(var));
    }
}

/// Where a variable comes from: a secret with its version, the latest one if it names none, or a
/// secret alone in the other form of a description.
pub proof fn source_is_the_secret(entry: JsonView, secret: Seq<char>, version: Seq<char>)
    ensures
        deep_member(entry, "valueSource"@, "secretKeyRef"@) matches Some(reference) && (
        reference.member("secret"@) == Some(JsonView::Text(secret)) && reference.member("version"@)
            == Some(JsonView::Text(version))) ==> source_of(entry) == Some(
            "secret:"@ + secret + ":"@ + version,
        ),
        deep_member(entry, "valueSource"@, "secretKeyRef"@) matches Some(reference) && (
        reference.member("secret"@) == Some(JsonView::Text(secret)) && reference.member("version"@)
            is None) ==> source_of(entry) == Some("secret:"@ + secret + ":"@ + "latest"@),
        entry.member("valueSource"@) is None && (deep_member(
            entry,
            "valueFrom"@,
            "secretKeyRef"@,
        ) matches Some(reference) && reference.member("name"@) == Some(JsonView::Text(secret)))
            ==> source_of(entry) == Some("secret:"@ + secret),
        entry.member("valueSource"@) is None && entry.member("valueFrom"@) is None ==> source_of(
            entry,
        ) is None,
{
}

/// The container that is meant: the first of the name that is asked for; without one, the first
/// that is not the sidecar; and if all are, the first.
pub proof fn meant_container_is_the_first(
    containers: Seq<JsonView>,
    requested: Seq<char>,
    i: int,
)
    requires
        0 <= i < containers.len(),
    ensures
        containers[i].member("name"@) == Some(JsonView::Text(requested)) && (forall|j: int|
            0 <= j < i ==> (#[trigger] containers[j]).member("name"@) != Some(
                JsonView::Text(requested),
            )) ==> meant_container(containers, Some(requested)) == Ok::<int, Seq<char>>(i),
        (forall|j: int|
            0 <= j < containers.len() ==> (#[trigger] containers[j]).member("name"@) != Some(
                JsonView::Text(requested),
            )) ==> meant_container(containers, Some(requested)) is Err,
        containers[i].member("name"@) != Some(JsonView::Text("detour-sidecar"@)) && (forall|j: int|
            0 <= j < i ==> (#[trigger] containers[j]).member("name"@) == Some(
                JsonView::Text("detour-sidecar"@),
            )) ==> meant_container(containers, None) == Ok::<int, Seq<char>>(i),
        (forall|j: int|
            0 <= j < containers.len() ==> (#[trigger] containers[j]).member("name"@) == Some(
                JsonView::Text("detour-sidecar"@),
            )) ==> meant_container(containers, None) == Ok::<int, Seq<char>>(0),
{
    let n = containers.len() as int;
    if containers[i].member("name"@) == Some(JsonView::Text(requested)) && (forall|j: int|
        0 <= j < i ==> (#[trigger] containers[j]).member("name"@) != Some(
            JsonView::Text(requested),
        )) {
        lemma_first_named(containers, requested, true, i);
    }
    if forall|j: int|
        0 <= j < containers.len() ==> (#[trigger] containers[j]).member("name"@) != Some(
            JsonView::Text(requested),
        ) {
        lemma_first_named(containers, requested, true, n);
    }
    let sidecar = "detour-sidecar"@;
    if containers[i].member("name"@) != Some(JsonView::Text(sidecar)) && (forall|j: int|
        0 <= j < i ==> (#[trigger] containers[j]).member("name"@) == Some(
            JsonView::Text(sidecar),
        )) {
        lemma_first_named(containers, sidecar, false, i);
    }
    if forall|j: int|
        0 <= j < containers.len() ==> (#[trigger] containers[j]).member("name"@) == Some(
            JsonView::Text(sidecar),
        ) {
        lemma_first_named(containers, sidecar, false, n);
    }
}

/// A description has its containers in its template, or in the template of its specification.
pub proof fn containers_are_found(service: JsonView, items: Seq<JsonView>)
    ensures
        deep_member(service, "template"@, "containers"@) == Some(JsonView::List(items))
            ==> containers_of(service) == Some(items),
        deep_member(service, "template"@, "containers"@) is None && (deep_member(
            service,
            "spec"@,
            "template"@,
        ) matches Some(template) && deep_member(template, "spec"@, "containers"@) == Some(
            JsonView::List(items),
        )) ==> containers_of(service) == Some(items),
{
}

/// The environment of a service is that of the container that is meant.
pub proof fn environment_is_that_of_the_container(
    service: JsonView,
    requested: Option<Seq<char>>,
    name: Seq<char>,
    entries: Seq<JsonView>,
)
    requires
        containers_of(service) matches Some(containers) && (meant_container(containers, requested)
            matches Ok(i) && containers[i].member("name"@) == Some(JsonView::Text(name))
            && containers[i].member("env"@) == Some(JsonView::List(entries))),
    ensures
        service_env(service, requested) == Ok::<(Seq<char>, Seq<EnvVarView>), Seq<char>>(
            (name, vars_of(entries)),
        ),
{
}

/// The variables with a value, and those without, stand in the order of the container.
pub proof fn variables_keep_their_order(vars: Seq<EnvVarView>, value: bool)
    ensures
        vars_with(vars, value) == vars.filter(|v: EnvVarView| v.value is Some == value),
    decreases vars.len(),
{
    reveal(Seq::filter);
    if vars.len() == 0 {
        assert(vars_with(vars, value) =~= vars.filter(|v: EnvVarView| v.value is Some == value));
    } else {
        variables_keep_their_order(vars.drop_last(), value);
    }
}

/// A container without a name is said to have none, and one without entries has no variables.
pub proof fn bare_container_has_no_variables(container: JsonView)
    ensures
        container.member("name"@) is None ==> container_env(container).0 == "<unnamed>"@,
        container.member("env"@) is None ==> container_env(container).1.len() == 0,
        container.member("env"@) matches Some(v) ==> (!(v is List) ==> container_env(
            container,
        ).1.len() == 0),
{
}

/// `gcloud` is asked for one service in one region, and for a project only if one is given.
pub proof fn description_is_asked_for(service: Seq<char>, region: Seq<char>, project: Seq<char>)
    ensures
        describe_arguments(service, region, None) == seq![
            "run"@,
            "services"@,
            "describe"@,
            service,
            "--region"@,
            region,
            "--format=json"@,
        ],
        describe_arguments(service, region, Some(project)) == describe_arguments(
            service,
            region,
            None,
        ).push("--project"@).push(project),
{
    assert(describe_arguments(service, region, Some(project)) =~= describe_arguments(
        service,
        region,
        None,
    ).push("--project"@).push(project));
}

/// A member that is set is found with its new value, and the others as they were.
pub proof fn members_are_set_by_name(
    members: Seq<(Seq<char>, JsonView)>,
    name: Seq<char>,
    value: JsonView,
    other: Seq<char>,
)
    requires
        other != name,
    ensures
        JsonView::Object(with_member(members, name, value)).member(name) == Some(value),
        JsonView::Object(with_member(members, name, value)).member(other) == JsonView::Object(
            members,
        ).member(other),
    decreases members.len(),
{
    let nothing = Seq::<(Seq<char>, JsonView)>::empty();
    let set = with_member(members, name, value);
    if members.len() == 0 {
        assert(set =~= nothing + seq![(name, value)] + nothing);
        members_are_found_by_name(nothing, name, value, nothing);
        members_are_found_by_name(set, other, value, nothing);
        members_are_found_by_name(members, other, value, nothing);
    } else {
        let rest = members.skip(1);
        assert(members =~= seq![members[0]] + rest);
        if members[0].0 == name {
            assert(set =~= nothing + seq![(name, value)] + rest);
            members_are_found_by_name(nothing, name, value, rest);
            lemma_member_behind((name, value), rest, other);
            lemma_member_behind(members[0], rest, other);
        } else {
            let behind = with_member(rest, name, value);
            members_are_set_by_name(rest, name, value, other);
            assert(set =~= seq![members[0]] + behind);
            lemma_member_behind(members[0], behind, name);
            if members[0].0 == other {
                assert(nothing + seq![(other, members[0].1)] + behind =~= set);
                assert(nothing + seq![(other, members[0].1)] + rest =~= members);
                members_are_found_by_name(nothing, other, members[0].1, behind);
                members_are_found_by_name(nothing, other, members[0].1, rest);
            } else {
                lemma_member_behind(members[0], behind, other);
                lemma_member_behind(members[0], rest, other);
            }
        }
    }
}

/// A member in front that has another name does not hide what stands behind it.
proof fn lemma_member_behind(
    first: (Seq<char>, JsonView),
    rest: Seq<(Seq<char>, JsonView)>,
    name: Seq<char>,
)
    requires
        first.0 != name,
    ensures
        JsonView::Object(seq![first] + rest).member(name) == JsonView::Object(rest).member(name),
{
    let all = seq![first] + rest;
    if exists|i: int| member_at(rest, name, i) {
        let i = choose|i: int| member_at(rest, name, i);
        let before = rest.take(i);
        let behind = rest.skip(i + 1);
        assert forall|j: int| 0 <= j < before.len() implies (#[trigger] before[j]).0 != name by {
            assert(before[j] == rest[j]);
        }
        assert(rest =~= before + seq![(name, rest[i].1)] + behind);
        members_are_found_by_name(before, name, rest[i].1, behind);
        let longer = seq![first] + before;
        assert forall|j: int| 0 <= j < longer.len() implies (#[trigger] longer[j]).0 != name by {
            if j > 0 {
                assert(longer[j] == before[j - 1]);
            }
        }
        assert(all =~= longer + seq![(name, rest[i].1)] + behind);
        members_are_found_by_name(longer, name, rest[i].1, behind);
    } else {
        assert forall|j: int| 0 <= j < rest.len() implies (#[trigger] rest[j]).0 != name by {
            lemma_no_member(rest, name, j);
        }
        assert forall|j: int| 0 <= j < all.len() implies (#[trigger] all[j]).0 != name by {
            if j > 0 {
                assert(all[j] == rest[j - 1]);
            }
        }
        members_are_found_by_name(rest, name, JsonView::Null, rest);
        members_are_found_by_name(all, name, JsonView::Null, rest);
    }
}

proof fn lemma_no_member(members: Seq<(Seq<char>, JsonView)>, name: Seq<char>, j: int)
    requires
        0 <= j < members.len(),
        !(exists|i: int| member_at(members, name, i)),
    ensures
        members[j].0 != name,
    decreases j,
{
    if members[j].0 == name {
        assert forall|k: int| 0 <= k < j implies (#[trigger] members[k]).0 != name by {
            lemma_no_member(members, name, k);
        }
        assert(member_at(members, name, j));
    }
}

/// As JSON every variable has its value under its name; of two with one name the later counts.
pub proof fn last_value_is_printed(vars: Seq<EnvVarView>, last: EnvVarView, other: Seq<char>)
    requires
        other != last.name,
    ensures
        JsonView::Object(env_members(vars.push(last))).member(last.name) == Some(
            JsonView::Text(last.value->Some_0),
        ),
        JsonView::Object(env_members(vars.push(last))).member(other) == JsonView::Object(
            env_members(vars),
        ).member(other),
        JsonView::Object(env_members(Seq::empty())).member(other) is None,
{
    assert(vars.push(last).drop_last() =~= vars);
    members_are_set_by_name(
        env_members(vars),
        last.name,
        JsonView::Text(last.value->Some_0),
        other,
    );
    let nothing = Seq::<(Seq<char>, JsonView)>::empty();
    members_are_found_by_name(nothing, other, JsonView::Null, nothing);
}

/// Variables with different names are printed in their order, all of them.
pub proof fn different_variables_are_all_printed(vars: Seq<EnvVarView>)
    requires
        forall|i: int, j: int|
            0 <= i < j < vars.len() ==> (#[trigger] vars[i]).name != (#[trigger] vars[j]).name,
    ensures
        env_members(vars) == vars.map_values(
            |v: EnvVarView| (v.name, JsonView::Text(v.value->Some_0)),
        ),
    decreases vars.len(),
{
    let pair = |v: EnvVarView| (v.name, JsonView::Text(v.value->Some_0));
    if vars.len() == 0 {
        assert(env_members(vars) =~= vars.map_values(pair));
    } else {
        let front = vars.drop_last();
        let last = vars.last();
        assert forall|i: int, j: int| 0 <= i < j < front.len() implies (
        #[trigger] front[i]).name != (#[trigger] front[j]).name by {
            assert(front[i] == vars[i] && front[j] == vars[j]);
        }
        different_variables_are_all_printed(front);
        let members = env_members(front);
        assert forall|i: int| 0 <= i < members.len() implies (#[trigger] members[i]).0
            != last.name by {
            assert(members[i] == pair(front[i]));
            assert(front[i] == vars[i]);
            assert(vars[i].name != vars[vars.len() - 1].name);
        }
        lemma_new_member(members, last.name, JsonView::Text(last.value->Some_0));
        assert(env_members(vars) =~= vars.map_values(pair));
    }
}

proof fn lemma_new_member(
    members: Seq<(Seq<char>, JsonView)>,
    name: Seq<char>,
    value: JsonView,
)
    requires
        forall|i: int| 0 <= i < members.len() ==> (#[trigger] members[i]).0 != name,
    ensures
        with_member(members, name, value) == members.push((name, value)),
    decreases members.len(),
{
    if members.len() == 0 {
        assert(with_member(members, name, value) =~= members.push((name, value)));
    } else {
        let rest = members.skip(1);
        assert forall|i: int| 0 <= i < rest.len() implies (#[trigger] rest[i]).0 != name by {
            assert(rest[i] == members[i + 1]);
        }
        assert(members[0].0 != name);
        lemma_new_member(rest, name, value);
        assert(with_member(members, name, value) =~= members.push((name, value)));
    }
}

/// The environment as JSON says whose it is, has the variables with a value under `env`, and names
/// each one without a value, in order, with where it comes from.
pub proof fn environment_is_printed(
    service: Seq<char>,
    region: Seq<char>,
    project: Option<Seq<char>>,
    container: Seq<char>,
    vars: Seq<EnvVarView>,
    i: int,
)
    requires
        0 <= i < vars_with(vars, false).len(),
    ensures
        env_body(service, region, project, container, vars) matches JsonView::Object(members)
            && members.len() == 6 && members[0] == ("service"@, JsonView::Text(service))
            && members[1] == ("region"@, JsonView::Text(region)) && members[2].0 == "project"@
            && (project is None ==> members[2].1 is Null) && (project is Some ==> members[2].1
            == JsonView::Text(project->0)) && members[3] == ("container"@, JsonView::Text(container))
            && members[4] == ("env"@, JsonView::Object(env_members(vars_with(vars, true))))
            && members[5].0 == "unresolved"@ && (members[5].1 matches JsonView::List(missing)
            && missing.len() == vars_with(vars, false).len() && (missing[i] matches
            JsonView::Object(told) && told.len() == 2 && told[0] == (
            "name"@,
            JsonView::Text(vars_with(vars, false)[i].name),
        ) && told[1].0 == "source"@ && (vars_with(vars, false)[i].source is None ==> told[1].1
            is Null) && (vars_with(vars, false)[i].source is Some ==> told[1].1 == JsonView::Text(
            vars_with(vars, false)[i].source->0,
        )))),
{
    let members = env_body(service, region, project, container, vars)->Object_0;
    let missing = members[5].1->List_0;
    assert(missing[i] == unresolved_entry(vars_with(vars, false)[i]));
}

/// Each variable without a value is named, in order, behind a line that counts them; if there are
/// none, nothing is said.
pub proof fn missing_variables_are_named(
    vars: Seq<EnvVarView>,
    container: Seq<char>,
    i: int,
)
    requires
        0 <= i < vars_with(vars, false).len(),
    ensures
        unresolved_notes(vars, container).len() == vars_with(vars, false).len() + 3,
        unresolved_notes(vars, container)[1] == "Skipped "@ + decimal_text(
            vars_with(vars, false).len(),
        ) + " unresolved env var(s) from container "@ + container + "."@,
        vars_with(vars, false)[i].source matches Some(source) ==> unresolved_notes(
            vars,
            container,
        )[i + 3] == "  "@ + vars_with(vars, false)[i].name + " ("@ + source + ")"@,
        vars_with(vars, false)[i].source is None ==> unresolved_notes(vars, container)[i + 3]
            == "  "@ + vars_with(vars, false)[i].name + " ("@ + "unknown source"@ + ")"@,
        unresolved_notes(Seq::empty(), container).len() == 0,
{
    let missing = vars_with(vars, false);
    let said = missing.map_values(|v: EnvVarView| unresolved_line(v));
    assert(said[i] == unresolved_line(missing[i]));
    assert(unresolved_notes(vars, container)[i + 3] == said[i]);
}

/// A line that sets a variable begins with `export` and the name, and what follows the equals sign
/// is read by a shell as the value.
pub proof fn exported_value_reads_back(var: EnvVarView)
    requires
        var.value is Some,
    ensures
        export_line(var).take(("export "@.len() + var.name.len() + 1) as int) == "export "@ + var.name + "="@,
        shell_read(
            export_line(var).skip(("export "@.len() + var.name.len() + 1) as int),
            Quoting::Bare,
        ) == var.value,
{
    reveal_strlit("=");
    let n = "export "@.len() + var.name.len() + 1;
    assert(export_line(var).take(n as int) =~= "export "@ + var.name + "="@);
    assert(export_line(var).skip(n as int) =~= shell_word(var.value->Some_0));
    escaped_word_reads_back(var.value->Some_0);
}

/// Where the first form of a description names no secret, the other one does; and containers that
/// are no list are none.
pub proof fn other_form_is_read(entry: JsonView, reference: JsonView, secret: Seq<char>)
    requires
        deep_member(entry, "valueFrom"@, "secretKeyRef"@) == Some(reference),
        reference.member("name"@) == Some(JsonView::Text(secret)),
    ensures
        deep_member(entry, "valueSource"@, "secretKeyRef"@) is None ==> source_of(entry) == Some(
            "secret:"@ + secret,
        ),
        deep_member(entry, "valueSource"@, "secretKeyRef"@) matches Some(first) ==> (first.member(
            "secret"@,
        ) is None ==> source_of(entry) == Some("secret:"@ + secret)),
        deep_member(entry, "template"@, "containers"@) matches Some(v) ==> (!(v is List)
            ==> containers_of(entry) is None),
        deep_member(entry, "template"@, "containers"@) is None && deep_member(
            entry,
            "spec"@,
            "template"@,
        ) is None ==> containers_of(entry) is None,
{
}

} // verus!
