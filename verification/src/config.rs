//! Configuration types for the two managed runtimes, and derivation of
//! the environment a runtime is launched with.
//!
//! Extra configuration keys become environment variables: keys are
//! trimmed, uppercased (ASCII letters only, by policy) and prefixed
//! with the runtime's prefix unless already so prefixed.

use vstd::prelude::*;
use vstd::string::*;

use crate::text::{seq_starts_with, starts_with_str, trim_spec, trim_str};

verus! {

pub const DEFAULT_OLLAMA_HOST: &'static str = "127.0.0.1";

pub const DEFAULT_OLLAMA_PORT: u16 = 11434;

pub const DEFAULT_OLLAMA_MODEL: &'static str = "llama3.2:3b";

pub const DEFAULT_MLX_HOST: &'static str = "127.0.0.1";

pub const DEFAULT_MLX_PORT: u16 = 8080;

pub const DEFAULT_MLX_MODEL: &'static str = "mlx-community/Llama-3.2-3B-Instruct-4bit";

/// ASCII uppercase of one character; everything else is unchanged.
pub open spec fn ascii_upper_char(c: char) -> char {
    if c == 'a' {
        'A'
    } else if c == 'b' {
        'B'
    } else if c == 'c' {
        'C'
    } else if c == 'd' {
        'D'
    } else if c == 'e' {
        'E'
    } else if c == 'f' {
        'F'
    } else if c == 'g' {
        'G'
    } else if c == 'h' {
        'H'
    } else if c == 'i' {
        'I'
    } else if c == 'j' {
        'J'
    } else if c == 'k' {
        'K'
    } else if c == 'l' {
        'L'
    } else if c == 'm' {
        'M'
    } else if c == 'n' {
        'N'
    } else if c == 'o' {
        'O'
    } else if c == 'p' {
        'P'
    } else if c == 'q' {
        'Q'
    } else if c == 'r' {
        'R'
    } else if c == 's' {
        'S'
    } else if c == 't' {
        'T'
    } else if c == 'u' {
        'U'
    } else if c == 'v' {
        'V'
    } else if c == 'w' {
        'W'
    } else if c == 'x' {
        'X'
    } else if c == 'y' {
        'Y'
    } else if c == 'z' {
        'Z'
    } else {
        c
    }
}

pub open spec fn upper_spec(s: Seq<char>) -> Seq<char> {
    s.map_values(|c: char| ascii_upper_char(c))
}

fn upper_char_str(c: char) -> (r: &'static str)
    requires
        'a' <= c && c <= 'z',
    ensures
        r@ == seq![ascii_upper_char(c)],
{
    proof {
        reveal_strlit("A");
        reveal_strlit("B");
        reveal_strlit("C");
        reveal_strlit("D");
        reveal_strlit("E");
        reveal_strlit("F");
        reveal_strlit("G");
        reveal_strlit("H");
        reveal_strlit("I");
        reveal_strlit("J");
        reveal_strlit("K");
        reveal_strlit("L");
        reveal_strlit("M");
        reveal_strlit("N");
        reveal_strlit("O");
        reveal_strlit("P");
        reveal_strlit("Q");
        reveal_strlit("R");
        reveal_strlit("S");
        reveal_strlit("T");
        reveal_strlit("U");
        reveal_strlit("V");
        reveal_strlit("W");
        reveal_strlit("X");
        reveal_strlit("Y");
        reveal_strlit("Z");
    }
    let r: &'static str =
    if c == 'a' {
        "A"
    } else if c == 'b' {
        "B"
    } else if c == 'c' {
        "C"
    } else if c == 'd' {
        "D"
    } else if c == 'e' {
        "E"
    } else if c == 'f' {
        "F"
    } else if c == 'g' {
        "G"
    } else if c == 'h' {
        "H"
    } else if c == 'i' {
        "I"
    } else if c == 'j' {
        "J"
    } else if c == 'k' {
        "K"
    } else if c == 'l' {
        "L"
    } else if c == 'm' {
        "M"
    } else if c == 'n' {
        "N"
    } else if c == 'o' {
        "O"
    } else if c == 'p' {
        "P"
    } else if c == 'q' {
        "Q"
    } else if c == 'r' {
        "R"
    } else if c == 's' {
        "S"
    } else if c == 't' {
        "T"
    } else if c == 'u' {
        "U"
    } else if c == 'v' {
        "V"
    } else if c == 'w' {
        "W"
    } else if c == 'x' {
        "X"
    } else if c == 'y' {
        "Y"
    } else if c == 'z' {
        "Z"
    } else {
        ""
    };
    proof {
        assert(r@ =~= seq![ascii_upper_char(c)]);
    }
    r
}

/// ASCII-uppercase a string; non-ASCII characters pass through.
pub fn ascii_upper(s: &str) -> (r: String)
    ensures
        r@ == upper_spec(s@),
{
    let len = s.unicode_len();
    let mut r = String::new();
    let mut i: usize = 0;
    proof {
        assert(r@ =~= upper_spec(s@.subrange(0, 0)));
    }
    while i < len
        invariant
            i <= len,
            len == s@.len(),
            r@ == upper_spec(s@.subrange(0, i as int)),
        decreases len - i,
    {
        let c = s.get_char(i);
        if 'a' <= c && c <= 'z' {
            r.append(upper_char_str(c));
        } else {
            r.append(s.substring_char(i, i + 1));
            proof {
                assert(s@.subrange(i as int, i + 1) =~= seq![s@[i as int]]);
                assert(ascii_upper_char(s@[i as int]) == s@[i as int]);
            }
        }
        proof {
            assert(s@.subrange(0, i + 1) =~= s@.subrange(0, i as int).push(s@[i as int]));
            assert(upper_spec(s@.subrange(0, i + 1)) =~= upper_spec(
                s@.subrange(0, i as int),
            ).push(ascii_upper_char(s@[i as int])));
            assert(r@ =~= upper_spec(s@.subrange(0, i + 1)));
        }
        i += 1;
    }
    proof {
        assert(s@.subrange(0, len as int) =~= s@);
    }
    r
}

/// An extra configuration key as it appears in the environment: trimmed,
/// uppercased, and carrying the runtime prefix exactly once.
pub open spec fn normalise_env_key_spec(key: Seq<char>, prefix: Seq<char>) -> Seq<char> {
    let upper = upper_spec(trim_spec(key));
    if seq_starts_with(upper, prefix) {
        upper
    } else {
        prefix + upper
    }
}

/// Normalise one extra configuration key.
pub fn normalise_env_key(key: &str, prefix: &str) -> (r: String)
    ensures
        r@ == normalise_env_key_spec(key@, prefix@),
{
    let upper = ascii_upper(trim_str(key));
    if starts_with_str(upper.as_str(), prefix) {
        upper
    } else {
        let r = String::from_str(prefix).concat(upper.as_str());
        r
    }
}

/// The environment derived from the extra configuration pairs.
pub open spec fn server_env_spec(
    extra: Seq<(Seq<char>, Seq<char>)>,
    prefix: Seq<char>,
) -> Seq<(Seq<char>, Seq<char>)> {
    extra.map_values(|p: (Seq<char>, Seq<char>)| (normalise_env_key_spec(p.0, prefix), p.1))
}

/// Turn the extra configuration pairs into environment variables.
pub fn server_env(extra: &Vec<(String, String)>, prefix: &str) -> (r: Vec<(String, String)>)
    ensures
        r.deep_view() == server_env_spec(extra.deep_view(), prefix@),
{
    let mut r: Vec<(String, String)> = Vec::new();
    let mut i: usize = 0;
    proof {
        assert(r.deep_view() =~= server_env_spec(extra.deep_view().subrange(0, 0), prefix@));
    }
    while i < extra.len()
        invariant
            i <= extra@.len(),
            extra.deep_view().len() == extra@.len(),
            r.deep_view() == server_env_spec(extra.deep_view().subrange(0, i as int), prefix@),
        decreases extra@.len() - i,
    {
        let key = normalise_env_key(extra[i].0.as_str(), prefix);
        let value = extra[i].1.clone();
        r.push((key, value));
        proof {
            let ex = extra.deep_view();
            assert(ex.subrange(0, i + 1) =~= ex.subrange(0, i as int).push(ex[i as int]));
            assert(server_env_spec(ex.subrange(0, i + 1), prefix@) =~= server_env_spec(
                ex.subrange(0, i as int),
                prefix@,
            ).push((normalise_env_key_spec(ex[i as int].0, prefix@), ex[i as int].1)));
            assert(ex[i as int].0 == extra@[i as int].0@);
            assert(ex[i as int].1 == extra@[i as int].1@);
            assert(r.deep_view() =~= server_env_spec(ex.subrange(0, i + 1), prefix@));
        }
        i += 1;
    }
    proof {
        assert(extra.deep_view().subrange(0, extra.deep_view().len() as int) =~= extra.deep_view());
    }
    r
}

/// Server configuration for the Ollama runtime.
#[derive(Debug, Clone)]
pub struct OllamaServerConfig {
    pub host: String,
    pub port: u16,
    pub model: String,
    pub extra: Vec<(String, String)>,
}

/// Server configuration for the MLX runtime.
#[derive(Debug, Clone)]
pub struct MlxServerConfig {
    pub host: String,
    pub port: u16,
    pub model: String,
    pub extra: Vec<(String, String)>,
}

/// The resolved configuration the lifecycle layer consumes.
#[derive(Debug, Clone)]
pub struct Config {
    pub ollama_server: OllamaServerConfig,
    pub mlx_server: MlxServerConfig,
}

/// The extra pairs every Ollama instance starts from.
pub open spec fn default_ollama_extra_spec() -> Seq<(Seq<char>, Seq<char>)> {
    seq![
        ("OLLAMA_CONTEXT_LENGTH"@, "4096"@),
        ("OLLAMA_MAX_LOADED_MODELS"@, "1"@),
        ("OLLAMA_NUM_PARALLEL"@, "1"@),
        ("OLLAMA_MAX_QUEUE"@, "512"@),
        ("OLLAMA_FLASH_ATTENTION"@, "true"@),
        ("OLLAMA_KEEP_ALIVE"@, "10m"@),
        ("OLLAMA_GPU_OVERHEAD"@, "1024"@),
        ("OLLAMA_KV_CACHE_TYPE"@, "q8_0"@),
    ]
}

fn default_ollama_extra() -> (r: Vec<(String, String)>)
    ensures
        r.deep_view() == default_ollama_extra_spec(),
{
    let mut r: Vec<(String, String)> = Vec::new();
    r.push((String::from_str("OLLAMA_CONTEXT_LENGTH"), String::from_str("4096")));
    r.push((String::from_str("OLLAMA_MAX_LOADED_MODELS"), String::from_str("1")));
    r.push((String::from_str("OLLAMA_NUM_PARALLEL"), String::from_str("1")));
    r.push((String::from_str("OLLAMA_MAX_QUEUE"), String::from_str("512")));
    r.push((String::from_str("OLLAMA_FLASH_ATTENTION"), String::from_str("true")));
    r.push((String::from_str("OLLAMA_KEEP_ALIVE"), String::from_str("10m")));
    r.push((String::from_str("OLLAMA_GPU_OVERHEAD"), String::from_str("1024")));
    r.push((String::from_str("OLLAMA_KV_CACHE_TYPE"), String::from_str("q8_0")));
    proof {
        assert(r.deep_view() =~~= default_ollama_extra_spec());
    }
    r
}

impl Default for OllamaServerConfig {
    /// The built-in Ollama defaults.
    fn default() -> (r: Self)
        ensures
            r.host@ == DEFAULT_OLLAMA_HOST@,
            r.port == DEFAULT_OLLAMA_PORT,
            r.model@ == DEFAULT_OLLAMA_MODEL@,
            r.extra.deep_view() == default_ollama_extra_spec(),
    {
        OllamaServerConfig {
            host: String::from_str(DEFAULT_OLLAMA_HOST),
            port: DEFAULT_OLLAMA_PORT,
            model: String::from_str(DEFAULT_OLLAMA_MODEL),
            extra: default_ollama_extra(),
        }
    }
}

impl Default for MlxServerConfig {
    /// The built-in MLX defaults.
    fn default() -> (r: Self)
        ensures
            r.host@ == DEFAULT_MLX_HOST@,
            r.port == DEFAULT_MLX_PORT,
            r.model@ == DEFAULT_MLX_MODEL@,
            r.extra.deep_view() == Seq::<(Seq<char>, Seq<char>)>::empty(),
    {
        let r = MlxServerConfig {
            host: String::from_str(DEFAULT_MLX_HOST),
            port: DEFAULT_MLX_PORT,
            model: String::from_str(DEFAULT_MLX_MODEL),
            extra: Vec::new(),
        };
        proof {
            assert(r.extra.deep_view() =~~= Seq::<(Seq<char>, Seq<char>)>::empty());
        }
        r
    }
}

impl Default for Config {
    /// Both runtimes at their built-in defaults.
    fn default() -> (r: Self)
        ensures
            r.ollama_server.host@ == DEFAULT_OLLAMA_HOST@,
            r.ollama_server.port == DEFAULT_OLLAMA_PORT,
            r.ollama_server.model@ == DEFAULT_OLLAMA_MODEL@,
            r.ollama_server.extra.deep_view() == default_ollama_extra_spec(),
            r.mlx_server.host@ == DEFAULT_MLX_HOST@,
            r.mlx_server.port == DEFAULT_MLX_PORT,
            r.mlx_server.model@ == DEFAULT_MLX_MODEL@,
            r.mlx_server.extra.deep_view() == Seq::<(Seq<char>, Seq<char>)>::empty(),
    {
        Config { ollama_server: Default::default(), mlx_server: Default::default() }
    }
}

} // verus!
