//! Service descriptors: everything needed to launch a runtime process and
//! recognise it later.

use vstd::prelude::*;
use vstd::string::*;

use crate::config::{server_env, server_env_spec, Config, MlxServerConfig, OllamaServerConfig};
use crate::env::{format_host_port, format_host_port_spec};
use crate::error::AppError;
use crate::num::{dec_digits, u64_string};
use crate::store::StateStore;
use crate::text::{join_path, seq_contains, trim_spec};

verus! {

/// A host value the runtime-config codec can persist and read back
/// unchanged: no newlines, no surrounding whitespace.
pub open spec fn host_wf(h: Seq<char>) -> bool {
    &&& trim_spec(h) == h
    &&& forall|i: int| 0 <= i < h.len() ==> #[trigger] h[i] != '\n'
}

/// The process signature of a command vector: its parts joined by single
/// spaces. Matching against a live command line is substring containment
/// of this signature.
pub open spec fn sig_of(cmd: Seq<Seq<char>>) -> Seq<char>
    decreases cmd.len(),
{
    if cmd.len() == 0 {
        Seq::empty()
    } else if cmd.len() == 1 {
        cmd[0]
    } else {
        cmd[0] + seq![' '] + sig_of(cmd.drop_first())
    }
}

pub proof fn lemma_sig_of_push(cmd: Seq<Seq<char>>, x: Seq<char>)
    ensures
        sig_of(cmd.push(x)) == if cmd.len() == 0 {
            x
        } else {
            sig_of(cmd) + seq![' '] + x
        },
    decreases cmd.len(),
{
    let p = cmd.push(x);
    if cmd.len() == 0 {
        assert(p.len() == 1);
        assert(p[0] == x);
    } else {
        assert(p.drop_first() =~= cmd.drop_first().push(x));
        lemma_sig_of_push(cmd.drop_first(), x);
        if cmd.len() == 1 {
            assert(cmd.drop_first().len() == 0);
            assert(sig_of(p) == p[0] + seq![' '] + x);
            assert(sig_of(cmd) == cmd[0]);
        } else {
            assert(sig_of(p) == p[0] + seq![' '] + (sig_of(cmd.drop_first()) + seq![' '] + x));
            assert(p[0] + seq![' '] + (sig_of(cmd.drop_first()) + seq![' '] + x) =~= (cmd[0]
                + seq![' '] + sig_of(cmd.drop_first())) + seq![' '] + x);
        }
    }
}

/// Immutable description of one managed runtime: identity, launch
/// command, environment overrides, endpoint, and the names of its three
/// state files.
#[derive(Debug, Clone)]
pub struct ManagedService {
    pub name: String,
    pub host: String,
    pub port: u16,
    pub command: Vec<String>,
    pub log_filename: String,
    pub pid_filename: String,
    pub config_filename: String,
    pub env: Vec<(String, String)>,
}

impl ManagedService {
    /// Validity of a descriptor: the three state files are distinct, and
    /// the host survives the runtime-config codec unchanged.
    pub open spec fn wf(&self) -> bool {
        &&& self.pid_filename@ != self.config_filename@
        &&& self.pid_filename@ != self.log_filename@
        &&& self.config_filename@ != self.log_filename@
        &&& host_wf(self.host@)
    }

    /// The signature by which this service's process is recognised.
    pub open spec fn sig(&self) -> Seq<char> {
        sig_of(self.command.deep_view())
    }

    pub fn log_path(&self, state_dir: &str) -> (r: String)
        ensures
            r@ == state_dir@ + seq!['/'] + self.log_filename@,
    {
        join_path(state_dir, self.log_filename.as_str())
    }

    pub fn pid_path(&self, state_dir: &str) -> (r: String)
        ensures
            r@ == state_dir@ + seq!['/'] + self.pid_filename@,
    {
        join_path(state_dir, self.pid_filename.as_str())
    }

    pub fn config_path(&self, state_dir: &str) -> (r: String)
        ensures
            r@ == state_dir@ + seq!['/'] + self.config_filename@,
    {
        join_path(state_dir, self.config_filename.as_str())
    }
}

/// The expected signature of a service: its command vector joined with
/// single spaces.
pub fn expected_signature(command: &Vec<String>) -> (r: String)
    ensures
        r@ == sig_of(command.deep_view()),
{
    let mut r = String::new();
    let mut i: usize = 0;
    proof {
        assert(command.deep_view().subrange(0, 0) =~= Seq::<Seq<char>>::empty());
    }
    while i < command.len()
        invariant
            i <= command.deep_view().len(),
            command.deep_view().len() == command@.len(),
            r@ == sig_of(command.deep_view().subrange(0, i as int)),
        decreases command@.len() - i,
    {
        proof {
            reveal_strlit(" ");
        }
        if i > 0 {
            r.append(" ");
        }
        r.append(command[i].as_str());
        proof {
            let cmds = command.deep_view();
            assert(cmds.subrange(0, i + 1) =~= cmds.subrange(0, i as int).push(cmds[i as int]));
            lemma_sig_of_push(cmds.subrange(0, i as int), cmds[i as int]);
            assert(command[i as int]@ == cmds[i as int]);
            if i > 0 {
                assert(r@ =~= sig_of(cmds.subrange(0, i as int)) + seq![' '] + cmds[i as int]);
            } else {
                assert(r@ =~= cmds[i as int]);
            }
        }
        i += 1;
    }
    proof {
        assert(command.deep_view().subrange(0, command.deep_view().len() as int) =~= command.deep_view());
    }
    r
}

/// The signature under which a live process is seen: its command line
/// when one is known, its bare name otherwise.
pub fn process_signature(name: &str, cmd: &Vec<String>) -> (r: String)
    ensures
        r@ == (if cmd.deep_view().len() == 0 {
            name@
        } else {
            sig_of(cmd.deep_view())
        }),
{
    if cmd.len() == 0 {
        String::from_str(name)
    } else {
        expected_signature(cmd)
    }
}

/// Whether a live process signature counts as a match for an expected
/// signature: substring containment, tolerating launcher-added arguments.
pub fn matches_signature(expected: &str, actual: &str) -> (r: bool)
    ensures
        r == seq_contains(actual@, expected@),
{
    crate::text::contains_str(actual, expected)
}

pub open spec fn ollama_command_spec() -> Seq<Seq<char>> {
    seq!["ollama"@, "serve"@]
}

pub open spec fn mlx_command_spec(model: Seq<char>, host: Seq<char>, port: u16) -> Seq<
    Seq<char>,
> {
    seq![
        "mlx_lm.server"@,
        "--model"@,
        model,
        "--host"@,
        host,
        "--port"@,
        dec_digits(port as int),
    ]
}

/// The environment an Ollama instance is launched with: the normalised
/// extra pairs, then the endpoint under `OLLAMA_HOST` (a later pair
/// wins when keys repeat).
pub open spec fn ollama_env_spec(
    extra: Seq<(Seq<char>, Seq<char>)>,
    host: Seq<char>,
    port: u16,
) -> Seq<(Seq<char>, Seq<char>)> {
    server_env_spec(extra, "OLLAMA_"@).push(("OLLAMA_HOST"@, format_host_port_spec(host, port)))
}

/// The fixed parts of an Ollama descriptor, at the given endpoint.
pub open spec fn is_ollama_service(
    s: ManagedService,
    host: Seq<char>,
    port: u16,
) -> bool {
    &&& s.name@ == "ollama"@
    &&& s.host@ == host
    &&& s.port == port
    &&& s.command.deep_view() == ollama_command_spec()
    &&& s.log_filename@ == "ollama.log"@
    &&& s.pid_filename@ == "ollama.pid"@
    &&& s.config_filename@ == "ollama.config"@
    &&& s.pid_filename@ != s.config_filename@
    &&& s.pid_filename@ != s.log_filename@
    &&& s.config_filename@ != s.log_filename@
}

/// The fixed parts of an MLX descriptor, at the given endpoint.
pub open spec fn is_mlx_service(
    s: ManagedService,
    host: Seq<char>,
    port: u16,
    model: Seq<char>,
) -> bool {
    &&& s.name@ == "mlx"@
    &&& s.host@ == host
    &&& s.port == port
    &&& s.command.deep_view() == mlx_command_spec(model, host, port)
    &&& s.log_filename@ == "mlx.log"@
    &&& s.pid_filename@ == "mlx.pid"@
    &&& s.config_filename@ == "mlx.config"@
    &&& s.pid_filename@ != s.config_filename@
    &&& s.pid_filename@ != s.log_filename@
    &&& s.config_filename@ != s.log_filename@
}

/// Build the Ollama descriptor from its server configuration.
pub fn create_ollama_service(cfg: &OllamaServerConfig) -> (r: ManagedService)
    ensures
        is_ollama_service(r, cfg.host@, cfg.port),
        r.env.deep_view() == ollama_env_spec(cfg.extra.deep_view(), cfg.host@, cfg.port),
        crate::services::host_wf(cfg.host@) ==> r.wf(),
{
    let mut env = server_env(&cfg.extra, "OLLAMA_");
    let ghost env0 = env.deep_view();
    env.push((String::from_str("OLLAMA_HOST"), format_host_port(cfg.host.as_str(), cfg.port)));
    let mut command: Vec<String> = Vec::new();
    command.push(String::from_str("ollama"));
    command.push(String::from_str("serve"));
    let r = ManagedService {
        name: String::from_str("ollama"),
        host: cfg.host.clone(),
        port: cfg.port,
        command,
        log_filename: String::from_str("ollama.log"),
        pid_filename: String::from_str("ollama.pid"),
        config_filename: String::from_str("ollama.config"),
        env,
    };
    proof {
        reveal_strlit("ollama.log");
        reveal_strlit("ollama.pid");
        reveal_strlit("ollama.config");
        assert("ollama.pid"@[7] != "ollama.log"@[7]);
        assert("ollama.pid"@.len() != "ollama.config"@.len());
        assert("ollama.config"@.len() != "ollama.log"@.len());
        assert(r.command.deep_view() =~~= ollama_command_spec());
        assert(r.env.deep_view() =~~= env0.push(
            ("OLLAMA_HOST"@, format_host_port_spec(cfg.host@, cfg.port)),
        ));
    }
    r
}

/// Build the MLX descriptor from its server configuration.
pub fn create_mlx_service(cfg: &MlxServerConfig) -> (r: ManagedService)
    ensures
        is_mlx_service(r, cfg.host@, cfg.port, cfg.model@),
        r.env.deep_view() == server_env_spec(cfg.extra.deep_view(), "MLX_"@),
        crate::services::host_wf(cfg.host@) ==> r.wf(),
{
    let env = server_env(&cfg.extra, "MLX_");
    let mut command: Vec<String> = Vec::new();
    command.push(String::from_str("mlx_lm.server"));
    command.push(String::from_str("--model"));
    command.push(cfg.model.clone());
    command.push(String::from_str("--host"));
    command.push(cfg.host.clone());
    command.push(String::from_str("--port"));
    command.push(u64_string(cfg.port as u64));
    let r = ManagedService {
        name: String::from_str("mlx"),
        host: cfg.host.clone(),
        port: cfg.port,
        command,
        log_filename: String::from_str("mlx.log"),
        pid_filename: String::from_str("mlx.pid"),
        config_filename: String::from_str("mlx.config"),
        env,
    };
    proof {
        reveal_strlit("mlx.log");
        reveal_strlit("mlx.pid");
        reveal_strlit("mlx.config");
        assert("mlx.pid"@[4] != "mlx.log"@[4]);
        assert("mlx.pid"@.len() != "mlx.config"@.len());
        assert("mlx.config"@.len() != "mlx.log"@.len());
        assert(r.command.deep_view() =~~= mlx_command_spec(cfg.model@, cfg.host@, cfg.port));
    }
    r
}

/// An Ollama descriptor reconstructed to match the live instance: the
/// persisted runtime-config record overrides the configured endpoint.
pub open spec fn loaded_ollama_ok<S: StateStore>(
    cfg: &OllamaServerConfig,
    store: &S,
    s: ManagedService,
) -> bool {
    match store.cfg_record("ollama.config"@) {
        Some(hp) => is_ollama_service(s, hp.0, hp.1) && s.wf() && s.env.deep_view()
            == ollama_env_spec(
            cfg.extra.deep_view(),
            cfg.host@,
            cfg.port,
        ).push(("OLLAMA_HOST"@, format_host_port_spec(hp.0, hp.1))),
        None => is_ollama_service(s, cfg.host@, cfg.port) && s.env.deep_view()
            == ollama_env_spec(cfg.extra.deep_view(), cfg.host@, cfg.port) && (host_wf(cfg.host@)
            ==> s.wf()),
    }
}

/// An MLX descriptor reconstructed to match the live instance: the
/// persisted runtime-config record overrides the configured endpoint,
/// in the launch command too.
pub open spec fn loaded_mlx_ok<S: StateStore>(
    cfg: &MlxServerConfig,
    store: &S,
    s: ManagedService,
) -> bool {
    match store.cfg_record("mlx.config"@) {
        Some(hp) => is_mlx_service(s, hp.0, hp.1, cfg.model@) && s.wf(),
        None => is_mlx_service(s, cfg.host@, cfg.port, cfg.model@) && (host_wf(cfg.host@)
            ==> s.wf()),
    }
}

/// Reconstruct the Ollama descriptor for a live instance, preferring the
/// persisted runtime-config record over the configured endpoint.
pub fn load_ollama_service<S: StateStore>(cfg: &OllamaServerConfig, store: &S) -> (r: Result<
    ManagedService,
    AppError,
>)
    requires
        store.infallible(),
    ensures
        store.cfg_file_wf("ollama.config"@) ==> r is Ok,
        r matches Ok(s) ==> loaded_ollama_ok(cfg, store, s),
{
    let mut svc = create_ollama_service(cfg);
    let rec = match store.read_config(&svc) {
        Ok(v) => v,
        Err(e) => return Err(e),
    };
    if let Some((host, port)) = rec {
        let ghost env0 = svc.env.deep_view();
        let endpoint = format_host_port(host.as_str(), port);
        svc.host = host;
        svc.port = port;
        svc.env.push((String::from_str("OLLAMA_HOST"), endpoint));
        proof {
            assert(svc.env.deep_view() =~~= env0.push(
                ("OLLAMA_HOST"@, format_host_port_spec(svc.host@, port)),
            ));
        }
    }
    Ok(svc)
}

/// Reconstruct the MLX descriptor for a live instance, preferring the
/// persisted runtime-config record over the configured endpoint; the
/// launch command carries the recorded endpoint too.
pub fn load_mlx_service<S: StateStore>(cfg: &MlxServerConfig, store: &S) -> (r: Result<
    ManagedService,
    AppError,
>)
    requires
        store.infallible(),
    ensures
        store.cfg_file_wf("mlx.config"@) ==> r is Ok,
        r matches Ok(s) ==> loaded_mlx_ok(cfg, store, s),
{
    let mut svc = create_mlx_service(cfg);
    let rec = match store.read_config(&svc) {
        Ok(v) => v,
        Err(e) => return Err(e),
    };
    if let Some((host, port)) = rec {
        let patched = MlxServerConfig {
            host: host,
            port: port,
            model: cfg.model.clone(),
            extra: cfg.extra.clone(),
        };
        let rebuilt = create_mlx_service(&patched);
        svc.host = rebuilt.host;
        svc.port = rebuilt.port;
        svc.command = rebuilt.command;
    }
    Ok(svc)
}

/// Both runtimes' descriptors, reconstructed for their live instances.
pub fn default_services<S: StateStore>(cfg: &Config, store: &S) -> (r: Result<
    Vec<ManagedService>,
    AppError,
>)
    requires
        store.infallible(),
    ensures
        store.cfg_file_wf("ollama.config"@) && store.cfg_file_wf("mlx.config"@) ==> r is Ok,
        r matches Ok(v) ==> v@.len() == 2 && loaded_ollama_ok(&cfg.ollama_server, store, v@[0])
            && loaded_mlx_ok(&cfg.mlx_server, store, v@[1]),
{
    let ollama = match load_ollama_service(&cfg.ollama_server, store) {
        Ok(s) => s,
        Err(e) => return Err(e),
    };
    let mlx = match load_mlx_service(&cfg.mlx_server, store) {
        Ok(s) => s,
        Err(e) => return Err(e),
    };
    let mut r: Vec<ManagedService> = Vec::new();
    r.push(ollama);
    r.push(mlx);
    Ok(r)
}

} // verus!
