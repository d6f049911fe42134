//! Running a local process in the place of a Cloud Run service.
use vstd::prelude::*;
use vstd::string::*;

use crate::broker::registry::pairs_view;
use crate::cli::env::{
    variables_keep_their_order, vars_view, vars_with, CloudRunEnvArgs, CloudRunProfile, EnvVar,
    EnvVarView,
};
use crate::cli::gcloud::{quote, quoted, CliError};
use crate::cli::start::{banner, invalid_mode, parse_route, route_of};
use crate::model::config::{AgentConfig, ServiceRoute};
use crate::model::session::{AuthMode, SessionId, TunnelStatus};
use crate::model::text_map::TextMap;
use crate::text::{
    chars_finish_with, chars_of, concat, decimal_text, finishes_with, number_text, opt_text, texts,
};

verus! {

/// The arguments of `detour run`.
pub struct RunArgs {
    pub command: RunCommand,
}

/// What to run in the place of.
pub enum RunCommand {
    /// A Cloud Run service.
    CloudRun(CloudRunRunArgs),
}

/// Which Cloud Run service to stand in for, and with what.
pub struct CloudRunRunArgs {
    pub service: String,
    pub region: String,
    pub project: Option<String>,
    pub container: Option<String>,
    pub route: String,
    pub broker: String,
    pub auth_mode: String,
    pub socks5_port: u16,
    pub layer_path: Option<String>,
    pub no_remote_env: bool,
    pub command: Vec<String>,
}

fn clone_text(s: &Option<String>) -> (r: Option<String>)
    ensures
        opt_text(r) == opt_text(*s),
{
    match s {
        Some(s) => Some(s.clone()),
        None => None,
    }
}

// ── Planning ──────────────────────────────────────────────────────────────────

/// The environment to ask for, unless the process is to do without it.
pub fn env_request(args: &CloudRunRunArgs) -> (r: Option<CloudRunEnvArgs>)
    ensures
        r is None <==> args.no_remote_env,
        r matches Some(env) ==> env.service == args.service && env.region == args.region
            && opt_text(env.project) == opt_text(args.project) && opt_text(env.container)
            == opt_text(args.container) && env.output@ == "shell"@,
{
    if args.no_remote_env {
        return None;
    }
    Some(
        CloudRunEnvArgs {
            service: args.service.clone(),
            region: args.region.clone(),
            project: clone_text(&args.project),
            container: clone_text(&args.container),
            output: "shell".to_string(),
        },
    )
}

/// What a process is to be run with.
pub struct RunPlan {
    pub auth_mode: AuthMode,
    pub route: ServiceRoute,
}

/// Check the arguments of `detour run`: the mode must be one, and the route must be one.
pub fn plan_run(args: &CloudRunRunArgs) -> (r: Result<RunPlan, CliError>)
    ensures
        match AuthMode::named(args.auth_mode@) {
            None => r matches Err(e) && e.says(invalid_mode(args.auth_mode@), None),
            Some(mode) => match route_of(args.route@) {
                Err(message) => r matches Err(e) && e.says(message, None),
                Ok(route) => r matches Ok(plan) && plan.auth_mode == mode && plan.route@ == route,
            },
        },
{
    let auth_mode = match AuthMode::from_str(args.auth_mode.as_str()) {
        Ok(mode) => mode,
        Err(e) => {
            return Err(CliError::new(e.to_string()));
        },
    };
    match parse_route(args.route.as_str()) {
        Ok(route) => Ok(RunPlan { auth_mode, route }),
        Err(e) => Err(e),
    }
}

/// The settings of the agent.
pub fn agent_config(args: &CloudRunRunArgs, plan: &RunPlan, auth_token: Option<String>) -> (r:
    AgentConfig)
    ensures
        r.broker_url == args.broker,
        r.routes@ == seq![plan.route],
        r.auth_mode == plan.auth_mode,
        r.auth_token == auth_token,
        r.socks5_port == args.socks5_port,
{
    let routes = vec![plan.route.clone()];
    assert(routes@ =~= seq![plan.route]);
    AgentConfig {
        broker_url: args.broker.clone(),
        routes,
        auth_mode: plan.auth_mode,
        auth_token,
        socks5_port: args.socks5_port,
    }
}

/// Why the tunnel did not come.
pub fn connect_failure(status: &TunnelStatus) -> (r: String)
    ensures
        r@ == match *status {
            TunnelStatus::Error(reason) => "failed to connect to broker: "@ + reason@,
            _ => "failed to connect to broker"@,
        },
{
    match status {
        TunnelStatus::Error(reason) => concat("failed to connect to broker: ", reason.as_str()),
        _ => "failed to connect to broker".to_string(),
    }
}

// ── The library that is loaded first ──────────────────────────────────────────

/// The name of the library.
pub fn layer_file_name(macos: bool) -> (r: &'static str)
    ensures
        r@ == if macos {
            "libdetour_layer.dylib"@
        } else {
            "libdetour_layer.so"@
        },
{
    if macos {
        "libdetour_layer.dylib"
    } else {
        "libdetour_layer.so"
    }
}

/// A path below a directory.
pub open spec fn below(dir: Seq<char>, name: Seq<char>) -> Seq<char> {
    if dir.len() == 0 || finishes_with(dir, "/"@) {
        dir + name
    } else {
        dir + "/"@ + name
    }
}

fn join_path(dir: &str, name: &str) -> (r: String)
    ensures
        r@ == below(dir@, name@),
{
    if dir.is_empty() || chars_finish_with(chars_of(dir).as_slice(), chars_of("/").as_slice()) {
        concat(dir, name)
    } else {
        concat(concat(dir, "/").as_str(), name)
    }
}

/// Where the library may lie: beside the program, above it, or among what was built below the
/// current directory.
pub open spec fn candidates(
    exe_dir: Option<Seq<char>>,
    current_dir: Option<Seq<char>>,
    file_name: Seq<char>,
) -> Seq<Seq<char>> {
    let beside = match exe_dir {
        Some(dir) => seq![below(dir, file_name), below(below(dir, ".."@), file_name)],
        None => Seq::empty(),
    };
    let built = match current_dir {
        Some(dir) => seq![
            below(below(below(dir, "target"@), "debug"@), file_name),
            below(below(below(dir, "target"@), "release"@), file_name),
        ],
        None => Seq::empty(),
    };
    beside + built
}

/// List where the library may lie.
pub fn layer_candidates(
    exe_dir: &Option<String>,
    current_dir: &Option<String>,
    file_name: &str,
) -> (r: Vec<String>)
    ensures
        texts(r@) == candidates(opt_text(*exe_dir), opt_text(*current_dir), file_name@),
{
    let mut out: Vec<String> = Vec::new();
    if let Some(dir) = exe_dir {
        out.push(join_path(dir.as_str(), file_name));
        out.push(join_path(join_path(dir.as_str(), "..").as_str(), file_name));
    }
    if let Some(dir) = current_dir {
        let target = join_path(dir.as_str(), "target");
        out.push(join_path(join_path(target.as_str(), "debug").as_str(), file_name));
        out.push(join_path(join_path(target.as_str(), "release").as_str(), file_name));
    }
    assert(texts(out@) =~= candidates(opt_text(*exe_dir), opt_text(*current_dir), file_name@));
    out
}

/// The position of the first one that is there.
pub open spec fn first_there(there: Seq<bool>) -> Option<int>
    decreases there.len(),
{
    if there.len() == 0 {
        None
    } else if there[0] {
        Some(0)
    } else {
        match first_there(there.skip(1)) {
            Some(i) => Some(i + 1),
            None => None,
        }
    }
}

proof fn lemma_first_there(there: Seq<bool>, i: int)
    requires
        0 <= i <= there.len(),
        forall|k: int| 0 <= k < i ==> !(#[trigger] there[k]),
        i < there.len() ==> there[i],
    ensures
        first_there(there) == if i < there.len() {
            Some(i)
        } else {
            None
        },
    decreases i,
{
    if i > 0 {
        let rest = there.skip(1);
        assert forall|k: int| 0 <= k < i - 1 implies !(#[trigger] rest[k]) by {
            assert(rest[k] == there[k + 1]);
        }
        lemma_first_there(rest, i - 1);
    }
}

/// Decide which library to load: the one that is asked for, which must be there, or else the first
/// of the candidates that is. `there` says of each path whether it is.
pub fn resolve_layer_path(
    explicit: Option<&str>,
    explicit_there: bool,
    paths: &[String],
    there: &[bool],
    file_name: &str,
) -> (r: Result<String, CliError>)
    requires
        paths@.len() == there@.len(),
    ensures
        match explicit {
            Some(path) => if explicit_there {
                r matches Ok(found) && found@ == path@
            } else {
                r matches Err(e) && e.says("detour layer library not found at "@ + path@, None)
            },
            None => match first_there(there@) {
                Some(i) => r matches Ok(found) && 0 <= i < paths@.len() && found@ == paths@[i]@,
                None => r matches Err(e) && e.says(
                    "could not locate "@ + file_name@
                        + " automatically; set DETOUR_LAYER_PATH or pass --layer-path"@,
                    None,
                ),
            },
        },
{
    if let Some(path) = explicit {
        if explicit_there {
            return Ok(path.to_string());
        }
        return Err(CliError::new(concat("detour layer library not found at ", path)));
    }
    let mut i: usize = 0;
    while i < there.len()
        invariant
            i <= there@.len(),
            explicit is None,
            paths@.len() == there@.len(),
            forall|k: int| 0 <= k < i ==> !(#[trigger] there@[k]),
        decreases there@.len() - i,
    {
        if there[i] {
            proof {
                lemma_first_there(there@, i as int);
            }
            return Ok(paths[i].clone());
        }
        i = i + 1;
    }
    proof {
        lemma_first_there(there@, i as int);
    }
    let message = concat(
        concat("could not locate ", file_name).as_str(),
        " automatically; set DETOUR_LAYER_PATH or pass --layer-path",
    );
    Err(CliError::new(message))
}

/// A list of paths with another one in front of it.
pub open spec fn in_front(existing: Option<Seq<char>>, path: Seq<char>) -> Seq<char> {
    match existing {
        Some(list) => if list.len() == 0 {
            path
        } else {
            path + ":"@ + list
        },
        None => path,
    }
}

/// Put a path in front of a list of paths.
pub fn prepend_env_path(existing: &Option<String>, new_path: &str) -> (r: String)
    ensures
        r@ == in_front(opt_text(*existing), new_path@),
{
    match existing {
        Some(list) => if list.as_str().is_empty() {
            new_path.to_string()
        } else {
            concat(concat(new_path, ":").as_str(), list.as_str())
        },
        None => new_path.to_string(),
    }
}

// ── The environment of the process ────────────────────────────────────────────

/// The variables of a container that a process gets: those with a value that the environment does
/// not set itself.
pub open spec fn imported(vars: Seq<EnvVarView>, env: Map<Seq<char>, Seq<char>>) -> Seq<
    (Seq<char>, Seq<char>),
>
    decreases vars.len(),
{
    if vars.len() == 0 {
        Seq::empty()
    } else {
        let before = imported(vars.drop_last(), env);
        let var = vars.last();
        if var.value is Some && !env.contains_key(var.name) {
            before.push((var.name, var.value->Some_0))
        } else {
            before
        }
    }
}

/// The variables that load the library first.
pub open spec fn preload(
    env: Map<Seq<char>, Seq<char>>,
    layer_path: Seq<char>,
    macos: bool,
) -> Seq<(Seq<char>, Seq<char>)> {
    let existing = |name: Seq<char>|
        if env.contains_key(name) {
            Some(env[name])
        } else {
            None
        };
    if macos {
        let insert = seq![
            ("DYLD_INSERT_LIBRARIES"@, in_front(existing("DYLD_INSERT_LIBRARIES"@), layer_path)),
        ];
        if env.contains_key("DYLD_FORCE_FLAT_NAMESPACE"@) {
            insert
        } else {
            insert.push(("DYLD_FORCE_FLAT_NAMESPACE"@, "1"@))
        }
    } else {
        seq![("LD_PRELOAD"@, in_front(existing("LD_PRELOAD"@), layer_path))]
    }
}

/// The variables that a process gets on top of its environment, in the order in which they are
/// set: those of the container, the port of the route unless the environment sets one, the port of
/// the proxy, and what loads the library first.
pub open spec fn child_env(
    vars: Seq<EnvVarView>,
    env: Map<Seq<char>, Seq<char>>,
    local_port: u16,
    socks5_port: u16,
    layer_path: Seq<char>,
    macos: bool,
) -> Seq<(Seq<char>, Seq<char>)> {
    let port = if env.contains_key("PORT"@) {
        Seq::empty()
    } else {
        seq![("PORT"@, decimal_text(local_port as nat))]
    };
    imported(vars, env) + port + seq![
        ("DETOUR_SOCKS5_PORT"@, decimal_text(socks5_port as nat)),
    ] + preload(env, layer_path, macos)
}

/// The variables of an optional profile.
pub open spec fn profile_vars(profile: Option<CloudRunProfile>) -> Seq<EnvVarView> {
    match profile {
        Some(profile) => vars_view(profile.env_vars@),
        None => Seq::empty(),
    }
}

fn import_vars(vars: &Vec<EnvVar>, env: &TextMap) -> (r: Vec<(String, String)>)
    ensures
        pairs_view(r@) == imported(vars_view(vars@), env@),
{
    let ghost all = vars_view(vars@);
    let mut out: Vec<(String, String)> = Vec::new();
    let mut i: usize = 0;
    assert(pairs_view(out@) =~= imported(all.take(0), env@));
    while i < vars.len()
        invariant
            i <= vars@.len(),
            all == vars_view(vars@),
            pairs_view(out@) == imported(all.take(i as int), env@),
        decreases vars@.len() - i,
    {
        let ghost before = out@;
        assert(all.take(i + 1).drop_last() =~= all.take(i as int));
        assert(all.take(i + 1).last() == vars@[i as int]@);
        if let Some(value) = &vars[i].value {
            if env.get(vars[i].name.as_str()).is_none() {
                out.push((vars[i].name.clone(), value.clone()));
                assert(pairs_view(out@) =~= pairs_view(before).push(
                    (vars@[i as int].name@, value@),
                ));
            }
        }
        i = i + 1;
    }
    assert(all.take(i as int) =~= all);
    out
}

/// Decide which variables a process gets on top of its environment.
pub fn child_environment(
    args: &CloudRunRunArgs,
    route: &ServiceRoute,
    profile: &Option<CloudRunProfile>,
    env: &TextMap,
    layer_path: &str,
    macos: bool,
) -> (r: Vec<(String, String)>)
    ensures
        pairs_view(r@) == child_env(
            profile_vars(*profile),
            env@,
            route.local_port,
            args.socks5_port,
            layer_path@,
            macos,
        ),
{
    let mut out: Vec<(String, String)> = match profile {
        Some(profile) => import_vars(&profile.env_vars, env),
        None => Vec::new(),
    };
    let ghost first = imported(profile_vars(*profile), env@);
    assert(pairs_view(out@) =~= first);
    if env.get("PORT").is_none() {
        out.push(("PORT".to_string(), number_text(route.local_port as u64)));
    }
    out.push(("DETOUR_SOCKS5_PORT".to_string(), number_text(args.socks5_port as u64)));
    if macos {
        out.push(
            (
                "DYLD_INSERT_LIBRARIES".to_string(),
                prepend_env_path(&env.get("DYLD_INSERT_LIBRARIES"), layer_path),
            ),
        );
        if env.get("DYLD_FORCE_FLAT_NAMESPACE").is_none() {
            out.push(("DYLD_FORCE_FLAT_NAMESPACE".to_string(), "1".to_string()));
        }
    } else {
        out.push(
            ("LD_PRELOAD".to_string(), prepend_env_path(&env.get("LD_PRELOAD"), layer_path)),
        );
    }
    assert(pairs_view(out@) =~= child_env(
        profile_vars(*profile),
        env@,
        route.local_port,
        args.socks5_port,
        layer_path@,
        macos,
    ));
    out
}

// ── Printing ──────────────────────────────────────────────────────────────────

/// The lines about the environment that a process gets.
pub open spec fn profile_lines(profile: Option<CloudRunProfile>) -> Seq<Seq<char>> {
    match profile {
        Some(profile) => seq![
            Seq::empty(),
            "  Runtime: Cloud Run "@ + profile.service@ + " ("@ + profile.container_name@ + ")"@,
            "  Env: "@ + decimal_text(vars_with(vars_view(profile.env_vars@), true).len())
                + " imported, "@ + decimal_text(
                vars_with(vars_view(profile.env_vars@), false).len(),
            ) + " unresolved"@,
        ],
        None => Seq::empty(),
    }
}

/// The lines that announce a process.
pub open spec fn run_lines(
    version: Seq<char>,
    broker: Seq<char>,
    id: Seq<char>,
    route: ServiceRoute,
    profile: Option<CloudRunProfile>,
    layer_path: Seq<char>,
) -> Seq<Seq<char>> {
    banner(version, broker) + seq![
        Seq::empty(),
        "  X-Route-To: "@ + id,
        Seq::empty(),
        "  "@ + route.service_name@ + "  →  localhost:"@ + decimal_text(route.local_port as nat),
    ] + profile_lines(profile) + seq!["  Layer: "@ + layer_path, Seq::empty()]
}

proof fn lemma_count_bound(vars: Seq<EnvVarView>, value: bool)
    ensures
        vars_with(vars, value).len() <= vars.len(),
    decreases vars.len(),
{
    if vars.len() > 0 {
        lemma_count_bound(vars.drop_last(), value);
    }
}

fn count_vars(vars: &Vec<EnvVar>, value: bool) -> (r: u64)
    ensures
        r == vars_with(vars_view(vars@), value).len(),
{
    let ghost all = vars_view(vars@);
    let mut n: u64 = 0;
    let mut i: usize = 0;
    while i < vars.len()
        invariant
            i <= vars@.len(),
            all == vars_view(vars@),
            n == vars_with(all.take(i as int), value).len(),
        decreases vars@.len() - i,
    {
        proof {
            lemma_count_bound(all.take(i as int), value);
        }
        assert(all.take(i + 1).drop_last() =~= all.take(i as int));
        assert(all.take(i + 1).last() == vars@[i as int]@);
        if vars[i].value.is_some() == value {
            n = n + 1;
        }
        i = i + 1;
    }
    assert(all.take(i as int) =~= all);
    n
}

/// Make the lines that announce a process.
pub fn run_banner(
    args: &CloudRunRunArgs,
    version: &str,
    id: &SessionId,
    route: &ServiceRoute,
    profile: &Option<CloudRunProfile>,
    layer_path: &str,
) -> (r: Vec<String>)
    ensures
        texts(r@) == run_lines(version@, args.broker@, id@, *route, *profile, layer_path@),
{
    let mut out: Vec<String> = Vec::new();
    out.push(String::new());
    out.push(concat("  Detour v", version));
    out.push(concat(concat("  Connecting to ", args.broker.as_str()).as_str(), " ..."));
    out.push(String::new());
    out.push(concat("  X-Route-To: ", id.as_str()));
    out.push(String::new());
    let line = concat(concat("  ", route.service_name.as_str()).as_str(), "  →  localhost:");
    out.push(concat(line.as_str(), number_text(route.local_port as u64).as_str()));
    if let Some(profile) = profile {
        out.push(String::new());
        let line = concat(concat("  Runtime: Cloud Run ", profile.service.as_str()).as_str(), " (");
        out.push(concat(concat(line.as_str(), profile.container_name.as_str()).as_str(), ")"));
        let line = concat(
            concat("  Env: ", number_text(count_vars(&profile.env_vars, true)).as_str()).as_str(),
            " imported, ",
        );
        let line = concat(
            line.as_str(),
            number_text(count_vars(&profile.env_vars, false)).as_str(),
        );
        out.push(concat(line.as_str(), " unresolved"));
    }
    out.push(concat("  Layer: ", layer_path));
    out.push(String::new());
    assert(texts(out@) =~= run_lines(version@, args.broker@, id@, *route, *profile, layer_path@));
    out
}

/// What is said of variables that the container has from secrets; nothing if there are none.
pub fn skipped_note(profile: &Option<CloudRunProfile>) -> (r: Option<String>)
    ensures
        ({
            let missing = vars_with(profile_vars(*profile), false).len();
            opt_text(r) == if missing == 0 {
                None
            } else {
                Some(
                    "Skipped "@ + decimal_text(missing)
                        + " secret-backed env var(s) from Cloud Run; local overrides can still supply them."@,
                )
            }
        }),
{
    match profile {
        None => None,
        Some(profile) => {
            let missing: u64 = count_vars(&profile.env_vars, false);
            if missing == 0 {
                return None;
            }
            Some(
                concat(
                    concat("Skipped ", number_text(missing).as_str()).as_str(),
                    " secret-backed env var(s) from Cloud Run; local overrides can still supply them.",
                ),
            )
        },
    }
}

/// What is said of a process that cannot be started.
pub fn spawn_failure(args: &CloudRunRunArgs) -> (r: String)
    ensures
        r@ == "failed to start local process "@ + quoted(
            if args.command@.len() > 0 {
                args.command@[0]@
            } else {
                Seq::empty()
            },
        ),
{
    let name = if args.command.len() > 0 {
        args.command[0].clone()
    } else {
        String::new()
    };
    concat("failed to start local process ", quote(name.as_str()).as_str())
}

/// The exit code to end with once the process ended: none of its own if it ended well, and one if
/// it has no code.
pub fn exit_code(success: bool, code: Option<i32>) -> (r: Option<i32>)
    ensures
        r == if success {
            None
        } else {
            match code {
                Some(code) => Some(code),
                None => Some(1),
            }
        },
{
    if success {
        None
    } else {
        match code {
            Some(code) => Some(code),
            None => Some(1),
        }
    }
}

// ── Laws ──────────────────────────────────────────────────────────────────────

/// What the environment sets itself is never taken from the container.
pub proof fn local_environment_wins(vars: Seq<EnvVarView>, env: Map<Seq<char>, Seq<char>>)
    ensures
        forall|i: int|
            0 <= i < imported(vars, env).len() ==> !env.contains_key(
                (#[trigger] imported(vars, env)[i]).0,
            ),
    decreases vars.len(),
{
    if vars.len() > 0 {
        let before = imported(vars.drop_last(), env);
        local_environment_wins(vars.drop_last(), env);
        assert forall|i: int| 0 <= i < imported(vars, env).len() implies !env.contains_key(
            (#[trigger] imported(vars, env)[i]).0,
        ) by {
            if i < before.len() {
                assert(imported(vars, env)[i] == before[i]);
            }
        }
    }
}

/// The library that is loaded first stays in front of those that were.
pub proof fn new_path_comes_first(existing: Option<Seq<char>>, path: Seq<char>)
    ensures
        in_front(existing, path).len() >= path.len(),
        in_front(existing, path).take(path.len() as int) == path,
{
    assert(in_front(existing, path).take(path.len() as int) =~= path);
}

/// A process gets every variable of the container that has a value and that the environment does
/// not set itself, with that value, in the order of the container, and nothing else of it.
pub proof fn container_variables_are_imported(
    vars: Seq<EnvVarView>,
    env: Map<Seq<char>, Seq<char>>,
)
    ensures
        imported(vars, env) == vars.filter(
            |v: EnvVarView| v.value is Some && !env.contains_key(v.name),
        ).map_values(|v: EnvVarView| (v.name, v.value->Some_0)),
    decreases vars.len(),
{
    reveal(Seq::filter);
    let pred = |v: EnvVarView| v.value is Some && !env.contains_key(v.name);
    let pair = |v: EnvVarView| (v.name, v.value->Some_0);
    if vars.len() == 0 {
        assert(imported(vars, env) =~= vars.filter(pred).map_values(pair));
    } else {
        let front = vars.drop_last();
        container_variables_are_imported(front, env);
        let before = front.filter(pred);
        assert(imported(vars, env) =~= vars.filter(pred).map_values(pair)) by {
            if pred(vars.last()) {
                assert(before.push(vars.last()).map_values(pair) =~= before.map_values(pair).push(
                    pair(vars.last()),
                ));
            }
        }
    }
}

/// In particular none of them is left out, and those come first of all that the process gets.
pub proof fn no_container_variable_is_lost(
    vars: Seq<EnvVarView>,
    env: Map<Seq<char>, Seq<char>>,
    local_port: u16,
    socks5_port: u16,
    layer_path: Seq<char>,
    macos: bool,
    i: int,
)
    requires
        0 <= i < vars.len(),
        vars[i].value is Some,
        !env.contains_key(vars[i].name),
    ensures
        child_env(vars, env, local_port, socks5_port, layer_path, macos).contains(
            (vars[i].name, vars[i].value->Some_0),
        ),
{
    let pred = |v: EnvVarView| v.value is Some && !env.contains_key(v.name);
    let pair = |v: EnvVarView| (v.name, v.value->Some_0);
    container_variables_are_imported(vars, env);
    vars.lemma_filter_contains(pred, i);
    let kept = vars.filter(pred);
    let k = choose|k: int| 0 <= k < kept.len() && kept[k] == vars[i];
    let all = child_env(vars, env, local_port, socks5_port, layer_path, macos);
    assert(kept.map_values(pair)[k] == (vars[i].name, vars[i].value->Some_0));
    assert(all[k] == imported(vars, env)[k]);
}

/// Behind the variables of the container a process gets its own: the port of the route unless the
/// environment sets one, the port of the proxy, and the layer in front of what is loaded first.
pub proof fn process_is_set_up(
    vars: Seq<EnvVarView>,
    env: Map<Seq<char>, Seq<char>>,
    local_port: u16,
    socks5_port: u16,
    layer_path: Seq<char>,
)
    ensures
        ({
            let own = child_env(vars, env, local_port, socks5_port, layer_path, false).skip(
                imported(vars, env).len() as int,
            );
            let loaded = if env.contains_key("LD_PRELOAD"@) && env["LD_PRELOAD"@].len() > 0 {
                layer_path + ":"@ + env["LD_PRELOAD"@]
            } else {
                layer_path
            };
            if env.contains_key("PORT"@) {
                own == seq![
                    ("DETOUR_SOCKS5_PORT"@, decimal_text(socks5_port as nat)),
                    ("LD_PRELOAD"@, loaded),
                ]
            } else {
                own == seq![
                    ("PORT"@, decimal_text(local_port as nat)),
                    ("DETOUR_SOCKS5_PORT"@, decimal_text(socks5_port as nat)),
                    ("LD_PRELOAD"@, loaded),
                ]
            }
        }),
{
    let all = child_env(vars, env, local_port, socks5_port, layer_path, false);
    let own = all.skip(imported(vars, env).len() as int);
    if env.contains_key("PORT"@) {
        assert(own =~= seq![all[all.len() - 2], all[all.len() - 1]]);
    } else {
        assert(own =~= seq![all[all.len() - 3], all[all.len() - 2], all[all.len() - 1]]);
    }
}

/// The library that is loaded is the first of the candidates that is there.
pub proof fn first_candidate_is_taken(there: Seq<bool>)
    ensures
        match first_there(there) {
            Some(i) => 0 <= i < there.len() && there[i] && forall|j: int|
                0 <= j < i ==> !(#[trigger] there[j]),
            None => forall|j: int| 0 <= j < there.len() ==> !(#[trigger] there[j]),
        },
    decreases there.len(),
{
    if there.len() > 0 && !there[0] {
        let rest = there.skip(1);
        first_candidate_is_taken(rest);
        assert forall|j: int| 0 < j < there.len() implies #[trigger] there[j] == rest[j - 1] by {}
    }
}

/// The library is looked for beside the program, above it, and among what was built in either way.
pub proof fn library_is_looked_for(
    exe_dir: Seq<char>,
    current_dir: Seq<char>,
    file_name: Seq<char>,
)
    requires
        exe_dir.len() > 0,
        exe_dir.last() != '/',
        current_dir.len() > 0,
        current_dir.last() != '/',
    ensures
        candidates(Some(exe_dir), Some(current_dir), file_name) == seq![
            exe_dir + "/"@ + file_name,
            exe_dir + "/../"@ + file_name,
            current_dir + "/target/debug/"@ + file_name,
            current_dir + "/target/release/"@ + file_name,
        ],
        candidates(None, Some(current_dir), file_name).len() == 2,
        candidates(Some(exe_dir), None, file_name).len() == 2,
{
    reveal_strlit("/");
    reveal_strlit("..");
    reveal_strlit("/../");
    reveal_strlit("target");
    reveal_strlit("debug");
    reveal_strlit("release");
    reveal_strlit("/target/debug/");
    reveal_strlit("/target/release/");
    lemma_below(exe_dir, file_name);
    lemma_below(exe_dir, ".."@);
    lemma_below(exe_dir + "/"@ + ".."@, file_name);
    assert(exe_dir + "/"@ + ".."@ + "/"@ + file_name =~= exe_dir + "/../"@ + file_name);
    lemma_below(current_dir, "target"@);
    let target = current_dir + "/"@ + "target"@;
    lemma_below(target, "debug"@);
    lemma_below(target, "release"@);
    lemma_below(target + "/"@ + "debug"@, file_name);
    lemma_below(target + "/"@ + "release"@, file_name);
    assert(target + "/"@ + "debug"@ + "/"@ + file_name =~= current_dir + "/target/debug/"@
        + file_name);
    assert(target + "/"@ + "release"@ + "/"@ + file_name =~= current_dir + "/target/release/"@
        + file_name);
    assert(candidates(Some(exe_dir), Some(current_dir), file_name) =~= seq![
        exe_dir + "/"@ + file_name,
        exe_dir + "/../"@ + file_name,
        current_dir + "/target/debug/"@ + file_name,
        current_dir + "/target/release/"@ + file_name,
    ]);
}

proof fn lemma_below(dir: Seq<char>, name: Seq<char>)
    requires
        dir.len() > 0,
        dir.last() != '/',
    ensures
        below(dir, name) == dir + "/"@ + name,
{
    reveal_strlit("/");
    if finishes_with(dir, "/"@) {
        assert(dir.skip(dir.len() - 1)[0] == dir.last());
    }
}

/// On macOS the layer goes in front of what is inserted, and one name space is asked for unless the
/// environment sets that itself.
pub proof fn process_is_set_up_on_macos(
    vars: Seq<EnvVarView>,
    env: Map<Seq<char>, Seq<char>>,
    local_port: u16,
    socks5_port: u16,
    layer_path: Seq<char>,
)
    requires
        env.contains_key("PORT"@),
    ensures
        ({
            let own = child_env(vars, env, local_port, socks5_port, layer_path, true).skip(
                imported(vars, env).len() as int,
            );
            let loaded = if env.contains_key("DYLD_INSERT_LIBRARIES"@)
                && env["DYLD_INSERT_LIBRARIES"@].len() > 0 {
                layer_path + ":"@ + env["DYLD_INSERT_LIBRARIES"@]
            } else {
                layer_path
            };
            if env.contains_key("DYLD_FORCE_FLAT_NAMESPACE"@) {
                own == seq![
                    ("DETOUR_SOCKS5_PORT"@, decimal_text(socks5_port as nat)),
                    ("DYLD_INSERT_LIBRARIES"@, loaded),
                ]
            } else {
                own == seq![
                    ("DETOUR_SOCKS5_PORT"@, decimal_text(socks5_port as nat)),
                    ("DYLD_INSERT_LIBRARIES"@, loaded),
                    ("DYLD_FORCE_FLAT_NAMESPACE"@, "1"@),
                ]
            }
        }),
{
    let all = child_env(vars, env, local_port, socks5_port, layer_path, true);
    let own = all.skip(imported(vars, env).len() as int);
    if env.contains_key("DYLD_FORCE_FLAT_NAMESPACE"@) {
        assert(own =~= seq![all[all.len() - 2], all[all.len() - 1]]);
    } else {
        assert(own =~= seq![all[all.len() - 3], all[all.len() - 2], all[all.len() - 1]]);
    }
}

/// What loads first keeps what was there behind it.
pub proof fn earlier_paths_stay(list: Seq<char>, path: Seq<char>)
    ensures
        list.len() > 0 ==> in_front(Some(list), path) == path + ":"@ + list,
        in_front(Some(Seq::empty()), path) == path,
        in_front(None, path) == path,
{
}

/// A process is announced with its session, its service and port, the environment that it gets and
/// the layer, in that order.
pub proof fn process_is_announced(
    version: Seq<char>,
    broker: Seq<char>,
    id: Seq<char>,
    route: ServiceRoute,
    profile: CloudRunProfile,
    layer_path: Seq<char>,
)
    ensures
        ({
            let start = banner(version, broker).len() as int;
            let bare = run_lines(version, broker, id, route, None, layer_path);
            let full = run_lines(version, broker, id, route, Some(profile), layer_path);
            &&& bare.len() == start + 6
            &&& full.len() == start + 9
            &&& bare[start + 1] == "  X-Route-To: "@ + id
            &&& bare[start + 3] == "  "@ + route.service_name@ + "  →  localhost:"@ + decimal_text(
                route.local_port as nat,
            )
            &&& bare[start + 4] == "  Layer: "@ + layer_path
            &&& full.take(start + 4) == bare.take(start + 4)
            &&& full[start + 5] == "  Runtime: Cloud Run "@ + profile.service@ + " ("@
                + profile.container_name@ + ")"@
            &&& full[start + 6] == "  Env: "@ + decimal_text(
                vars_view(profile.env_vars@).filter(|v: EnvVarView| v.value is Some == true).len(),
            ) + " imported, "@ + decimal_text(
                vars_view(profile.env_vars@).filter(|v: EnvVarView| v.value is Some == false).len(),
            ) + " unresolved"@
            &&& full[start + 7] == "  Layer: "@ + layer_path
        }),
{
    let start = banner(version, broker).len() as int;
    let bare = run_lines(version, broker, id, route, None, layer_path);
    let full = run_lines(version, broker, id, route, Some(profile), layer_path);
    assert(full.take(start + 4) =~= bare.take(start + 4));
    variables_keep_their_order(vars_view(profile.env_vars@), true);
    variables_keep_their_order(vars_view(profile.env_vars@), false);
}

/// On either system a process gets the port of the route exactly if the environment sets none, and
/// the port of the proxy always.
pub proof fn process_gets_its_ports(
    vars: Seq<EnvVarView>,
    env: Map<Seq<char>, Seq<char>>,
    local_port: u16,
    socks5_port: u16,
    layer_path: Seq<char>,
    macos: bool,
)
    ensures
        ({
            let all = child_env(vars, env, local_port, socks5_port, layer_path, macos);
            let own = imported(vars, env).len() as int;
            if env.contains_key("PORT"@) {
                all[own] == ("DETOUR_SOCKS5_PORT"@, decimal_text(socks5_port as nat))
            } else {
                &&& all[own] == ("PORT"@, decimal_text(local_port as nat))
                &&& all[own + 1] == ("DETOUR_SOCKS5_PORT"@, decimal_text(socks5_port as nat))
            }
        }),
{
}

} // verus!
