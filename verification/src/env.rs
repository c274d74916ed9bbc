//! Resolution of host, port and model values from explicit overrides,
//! environment-provided values, and built-in defaults — in that order of
//! precedence.
//!
//! Reading the actual process environment is the caller's concern; these
//! functions take the relevant value as an argument and apply the
//! resolution rules exactly.

use vstd::prelude::*;
use vstd::string::*;

use crate::config::DEFAULT_MLX_HOST;
use crate::error::AppError;
use crate::num::{parse_u16, parse_unsigned_spec, u64_string, dec_digits, lemma_dec_digits_val};
use crate::text::{find_char, first_index, trim_spec, trim_str};

verus! {

pub const OLLAMA_HOST_DEFAULT: &'static str = "127.0.0.1:11434";

pub const MLX_MODEL_DEFAULT: &'static str = "mlx-community/Llama-3.2-3B-Instruct-4bit";

pub const MLX_PORT_DEFAULT: u16 = 8080;

/// Index of the last occurrence of `sep` in `s`, or `-1` if absent.
pub open spec fn last_index(s: Seq<char>, sep: char) -> int
    decreases s.len(),
{
    if s.len() == 0 {
        -1
    } else if s.last() == sep {
        s.len() - 1
    } else {
        last_index(s.drop_last(), sep)
    }
}

pub proof fn lemma_last_index_props(s: Seq<char>, sep: char)
    ensures
        -1 <= last_index(s, sep) < s.len(),
        last_index(s, sep) >= 0 ==> s[last_index(s, sep)] == sep,
        forall|j: int| last_index(s, sep) < j < s.len() ==> #[trigger] s[j] != sep,
    decreases s.len(),
{
    if s.len() > 0 && s.last() != sep {
        lemma_last_index_props(s.drop_last(), sep);
        assert(forall|j: int|
            0 <= j < s.len() - 1 ==> #[trigger] s[j] == s.drop_last()[j]);
    }
}

pub proof fn lemma_last_index_is(s: Seq<char>, sep: char, k: int)
    requires
        -1 <= k < s.len(),
        k >= 0 ==> s[k] == sep,
        forall|j: int| k < j < s.len() ==> #[trigger] s[j] != sep,
    ensures
        last_index(s, sep) == k,
    decreases s.len(),
{
    if s.len() > 0 && k < s.len() - 1 {
        let t = s.drop_last();
        assert(forall|j: int| k < j < t.len() ==> #[trigger] t[j] == s[j]);
        lemma_last_index_is(t, sep, k);
    }
}

/// Index of the last occurrence of `sep`, or the length if absent
/// (returned this way so the result is a `usize`).
pub fn rfind_char(s: &str, sep: char) -> (r: usize)
    ensures
        last_index(s@, sep) >= 0 ==> r == last_index(s@, sep),
        last_index(s@, sep) < 0 ==> r == s@.len(),
{
    let len = s.unicode_len();
    let mut i: usize = len;
    while i > 0
        invariant
            i <= len,
            len == s@.len(),
            forall|j: int| i <= j < len ==> #[trigger] s@[j] != sep,
        decreases i,
    {
        if s.get_char(i - 1) == sep {
            proof {
                lemma_last_index_is(s@, sep, i - 1);
            }
            return i - 1;
        }
        i -= 1;
    }
    proof {
        lemma_last_index_is(s@, sep, -1);
    }
    len
}

/// What parsing a `host:port` value yields. A bracketed form
/// `[host]:port` carries the host verbatim inside the brackets; the
/// plain form divides at the last colon.
pub open spec fn parse_host_port_spec(v: Seq<char>) -> Option<(Seq<char>, u16)> {
    let t = trim_spec(v);
    if t.len() == 0 {
        None
    } else if t[0] == '[' {
        let close = first_index(t, ']');
        if close == t.len() {
            None
        } else {
            let after = t.subrange(close + 1, t.len() as int);
            if after.len() > 0 && after[0] == ':' {
                match parse_unsigned_spec(after.subrange(1, after.len() as int), 0xffff) {
                    Some(p) => Some((t.subrange(1, close), p as u16)),
                    None => None,
                }
            } else {
                None
            }
        }
    } else {
        let li = last_index(t, ':');
        if li < 0 {
            None
        } else {
            let ps = t.subrange(li + 1, t.len() as int);
            if ps.len() == 0 {
                None
            } else {
                match parse_unsigned_spec(ps, 0xffff) {
                    Some(p) => Some((t.subrange(0, li), p as u16)),
                    None => None,
                }
            }
        }
    }
}

/// Split a `host:port` value into its parts.
pub fn parse_host_port(value: &str) -> (r: Option<(String, u16)>)
    ensures
        crate::records::opt_pair_view(r) == parse_host_port_spec(value@),
{
    let t = trim_str(value);
    let tlen = t.unicode_len();
    if tlen == 0 {
        return None;
    }
    if t.get_char(0) == '[' {
        let close = find_char(t, ']');
        proof {
            crate::text::lemma_first_index_props(t@, ']');
        }
        if close == tlen {
            return None;
        }
        let after = t.substring_char(close + 1, tlen);
        if after.unicode_len() > 0 && after.get_char(0) == ':' {
            let ps = after.substring_char(1, after.unicode_len());
            match parse_u16(ps) {
                Some(p) => {
                    let host = String::from_str(t.substring_char(1, close));
                    Some((host, p))
                },
                None => None,
            }
        } else {
            None
        }
    } else {
        let li = rfind_char(t, ':');
        proof {
            lemma_last_index_props(t@, ':');
        }
        if li == tlen {
            return None;
        }
        let ps = t.substring_char(li + 1, tlen);
        if ps.unicode_len() == 0 {
            return None;
        }
        match parse_u16(ps) {
            Some(p) => {
                let host = String::from_str(t.substring_char(0, li));
                Some((host, p))
            },
            None => None,
        }
    }
}

/// How a host and port are rendered as one value: a host that itself
/// contains a colon and is not already bracketed is bracketed.
pub open spec fn format_host_port_spec(host: Seq<char>, port: u16) -> Seq<char> {
    if first_index(host, ':') < host.len() && !(host.len() > 0 && host[0] == '[') && !(host.len()
        > 0 && host.last() == ']') {
        seq!['['] + host + seq![']'] + seq![':'] + dec_digits(port as int)
    } else {
        host + seq![':'] + dec_digits(port as int)
    }
}

/// Render a host and port as one value.
pub fn format_host_port(host: &str, port: u16) -> (r: String)
    ensures
        r@ == format_host_port_spec(host@, port),
{
    proof {
        reveal_strlit("[");
        reveal_strlit("]");
        reveal_strlit(":");
        lemma_dec_digits_val(port as int);
    }
    let hlen = host.unicode_len();
    let colon = find_char(host, ':');
    proof {
        crate::text::lemma_first_index_props(host@, ':');
    }
    let bracketed = hlen > 0 && (host.get_char(0) == '[' || host.get_char(hlen - 1) == ']');
    let r = if colon < hlen && !bracketed {
        String::from_str("[").concat(host).concat("]").concat(":").concat(
            u64_string(port as u64).as_str(),
        )
    } else {
        String::from_str(host).concat(":").concat(u64_string(port as u64).as_str())
    };
    proof {
        assert(r@ =~= format_host_port_spec(host@, port));
    }
    r
}

/// The resolved Ollama endpoint: an explicit override wins, then the
/// environment-provided `host:port` value, then the built-in default.
pub open spec fn resolve_ollama_spec(
    host_override: Option<Seq<char>>,
    port_override: Option<u16>,
    env_value: Option<Seq<char>>,
) -> (Seq<char>, u16) {
    let base = match env_value {
        Some(v) => v,
        None => OLLAMA_HOST_DEFAULT@,
    };
    let parsed = match parse_host_port_spec(base) {
        Some(hp) => hp,
        None => match parse_host_port_spec(OLLAMA_HOST_DEFAULT@) {
            Some(hp) => hp,
            None => (Seq::empty(), 0u16),
        },
    };
    let host = match host_override {
        Some(h) => if h.len() > 0 {
            trim_brackets_spec(h)
        } else {
            parsed.0
        },
        None => parsed.0,
    };
    let port = match port_override {
        Some(p) => p,
        None => parsed.1,
    };
    (host, port)
}

/// `s` with every leading and trailing `[` or `]` removed.
pub open spec fn trim_brackets_spec(s: Seq<char>) -> Seq<char>
    decreases s.len(),
{
    if s.len() == 0 {
        s
    } else if s[0] == '[' || s[0] == ']' {
        trim_brackets_spec(s.drop_first())
    } else if s.last() == '[' || s.last() == ']' {
        trim_brackets_spec(s.drop_last())
    } else {
        s
    }
}

fn is_bracket(c: char) -> (r: bool)
    ensures
        r == (c == '[' || c == ']'),
{
    c == '[' || c == ']'
}

proof fn lemma_trim_brackets_subrange(s: Seq<char>, lo: int, hi: int)
    requires
        0 <= lo <= hi <= s.len(),
        forall|i: int| 0 <= i < lo ==> #[trigger] s[i] == '[' || s[i] == ']',
        forall|i: int| hi <= i < s.len() ==> #[trigger] s[i] == '[' || s[i] == ']',
        lo < hi ==> !(s[lo] == '[' || s[lo] == ']') && !(s[hi - 1] == '[' || s[hi - 1] == ']'),
    ensures
        trim_brackets_spec(s) == s.subrange(lo, hi),
    decreases s.len(),
{
    if lo == hi {
        lemma_trim_brackets_all(s);
        assert(s.subrange(lo, hi) =~= Seq::<char>::empty());
    } else if s.len() == 0 {
    } else if s[0] == '[' || s[0] == ']' {
        let t = s.drop_first();
        assert(forall|i: int| 0 <= i < lo - 1 ==> #[trigger] t[i] == s[i + 1]);
        assert(forall|i: int| hi - 1 <= i < t.len() ==> #[trigger] t[i] == s[i + 1]);
        lemma_trim_brackets_subrange(t, lo - 1, hi - 1);
        assert(t.subrange(lo - 1, hi - 1) =~= s.subrange(lo, hi));
    } else if s.last() == '[' || s.last() == ']' {
        let t = s.drop_last();
        assert(hi < s.len());
        assert(forall|i: int| 0 <= i < lo ==> #[trigger] t[i] == s[i]);
        assert(forall|i: int| hi <= i < t.len() ==> #[trigger] t[i] == s[i]);
        lemma_trim_brackets_subrange(t, lo, hi);
        assert(t.subrange(lo, hi) =~= s.subrange(lo, hi));
    } else {
        assert(lo == 0);
        assert(hi == s.len());
        assert(s.subrange(0, s.len() as int) =~= s);
    }
}

proof fn lemma_trim_brackets_all(s: Seq<char>)
    requires
        forall|i: int| 0 <= i < s.len() ==> #[trigger] s[i] == '[' || s[i] == ']',
    ensures
        trim_brackets_spec(s) =~= Seq::<char>::empty(),
    decreases s.len(),
{
    if s.len() > 0 {
        assert(forall|i: int|
            0 <= i < s.len() - 1 ==> #[trigger] s.drop_first()[i] == s[i + 1]);
        lemma_trim_brackets_all(s.drop_first());
    }
}

/// Remove surrounding brackets from an override value.
fn trim_brackets(s: &str) -> (r: &str)
    ensures
        r@ == trim_brackets_spec(s@),
{
    let len = s.unicode_len();
    let mut lo: usize = 0;
    while lo < len && is_bracket(s.get_char(lo))
        invariant
            lo <= len,
            len == s@.len(),
            forall|i: int| 0 <= i < lo ==> #[trigger] s@[i] == '[' || s@[i] == ']',
        decreases len - lo,
    {
        lo += 1;
    }
    let mut hi: usize = len;
    while hi > lo && is_bracket(s.get_char(hi - 1))
        invariant
            lo <= hi <= len,
            len == s@.len(),
            forall|i: int| 0 <= i < lo ==> #[trigger] s@[i] == '[' || s@[i] == ']',
            forall|i: int| hi <= i < len ==> #[trigger] s@[i] == '[' || s@[i] == ']',
        decreases hi,
    {
        hi -= 1;
    }
    proof {
        lemma_trim_brackets_subrange(s@, lo as int, hi as int);
    }
    s.substring_char(lo, hi)
}

pub open spec fn opt_str_view(o: Option<&str>) -> Option<Seq<char>> {
    match o {
        Some(s) => Some(s@),
        None => None,
    }
}

/// Resolve the Ollama endpoint from an override, the environment's
/// `host:port` value, and the built-in default.
pub fn ollama_host_port(
    host_override: Option<String>,
    port_override: Option<u16>,
    env_value: Option<&str>,
) -> (r: (String, u16))
    ensures
        (r.0@, r.1) == resolve_ollama_spec(
            crate::records::opt_view(host_override),
            port_override,
            opt_str_view(env_value),
        ),
{
    let parsed: (String, u16) = {
        let base: &str = match &env_value {
            Some(v) => *v,
            None => OLLAMA_HOST_DEFAULT,
        };
        match parse_host_port(base) {
            Some(hp) => hp,
            None => {
                match parse_host_port(OLLAMA_HOST_DEFAULT) {
                    Some(hp) => hp,
                    None => (String::new(), 0u16),
                }
            },
        }
    };
    let port: u16 = match port_override {
        Some(p) => p,
        None => parsed.1,
    };
    let host: String = match host_override {
        Some(h) => {
            if h.unicode_len() > 0 {
                String::from_str(trim_brackets(h.as_str()))
            } else {
                parsed.0
            }
        },
        None => parsed.0,
    };
    (host, port)
}

/// Resolve the MLX host: a non-empty override wins, then the
/// environment value, then the loopback default.
pub fn mlx_host(host_override: Option<String>, env_value: Option<&str>) -> (r: String)
    ensures
        r@ == (match crate::records::opt_view(host_override) {
            Some(h) => if h.len() > 0 {
                h
            } else {
                match opt_str_view(env_value) {
                    Some(v) => v,
                    None => DEFAULT_MLX_HOST@,
                }
            },
            None => match opt_str_view(env_value) {
                Some(v) => v,
                None => DEFAULT_MLX_HOST@,
            },
        }),
{
    match host_override {
        Some(h) => {
            if h.unicode_len() > 0 {
                return h;
            }
            match env_value {
                Some(v) => String::from_str(v),
                None => String::from_str(DEFAULT_MLX_HOST),
            }
        },
        None => {
            match env_value {
                Some(v) => String::from_str(v),
                None => String::from_str(DEFAULT_MLX_HOST),
            }
        },
    }
}

/// What resolving the MLX port yields: an override wins outright; an
/// environment value must parse as a port; the default otherwise.
pub open spec fn resolve_mlx_port_spec(port_override: Option<u16>, env_value: Option<Seq<char>>) -> Option<
    u16,
> {
    match port_override {
        Some(p) => Some(p),
        None => match env_value {
            Some(v) => match parse_unsigned_spec(v, 0xffff) {
                Some(p) => Some(p as u16),
                None => None,
            },
            None => Some(MLX_PORT_DEFAULT),
        },
    }
}

/// Resolve the MLX port; an environment value that is not a port number
/// is a configuration error naming the offending value.
pub fn mlx_port(port_override: Option<u16>, env_value: Option<&str>) -> (r: Result<u16, AppError>)
    ensures
        match resolve_mlx_port_spec(port_override, opt_str_view(env_value)) {
            Some(p) => r matches Ok(q) && q == p,
            None => r matches Err(e) && e.kind_spec() == crate::error::ErrorKind::InvalidInput,
        },
{
    if let Some(p) = port_override {
        return Ok(p);
    }
    match env_value {
        None => Ok(MLX_PORT_DEFAULT),
        Some(raw) => {
            match parse_u16(raw) {
                Some(p) => Ok(p),
                None => {
                    proof {
                        reveal_strlit("Invalid MLX port value '");
                        reveal_strlit("'");
                    }
                    let msg = String::from_str("Invalid MLX port value '").concat(raw).concat(
                        "'",
                    );
                    Err(AppError::ConfigError(msg))
                },
            }
        },
    }
}

/// The launch environment of an Ollama instance at the given endpoint:
/// fixed tuning variables plus `OLLAMA_HOST`.
pub open spec fn ollama_environment_spec(host: Seq<char>, port: u16) -> Seq<
    (Seq<char>, Seq<char>),
> {
    seq![
        ("OLLAMA_CONTEXT_LENGTH"@, "4096"@),
        ("OLLAMA_MAX_LOADED_MODELS"@, "1"@),
        ("OLLAMA_NUM_PARALLEL"@, "1"@),
        ("OLLAMA_MAX_QUEUE"@, "512"@),
        ("OLLAMA_FLASH_ATTENTION"@, "true"@),
        ("OLLAMA_KEEP_ALIVE"@, "10m"@),
        ("OLLAMA_GPU_OVERHEAD"@, "1024"@),
        ("OLLAMA_KV_CACHE_TYPE"@, "q8_0"@),
        ("OLLAMA_HOST"@, format_host_port_spec(host, port)),
    ]
}

/// Build the launch environment of an Ollama instance.
pub fn ollama_environment(host: &str, port: u16) -> (r: Vec<(String, String)>)
    ensures
        r.deep_view() == ollama_environment_spec(host@, port),
{
    let mut r: Vec<(String, String)> = Vec::new();
    r.push((String::from_str("OLLAMA_CONTEXT_LENGTH"), String::from_str("4096")));
    r.push((String::from_str("OLLAMA_MAX_LOADED_MODELS"), String::from_str("1")));
    r.push((String::from_str("OLLAMA_NUM_PARALLEL"), String::from_str("1")));
    r.push((String::from_str("OLLAMA_MAX_QUEUE"), String::from_str("512")));
    r.push((String::from_str("OLLAMA_FLASH_ATTENTION"), String::from_str("true")));
    r.push((String::from_str("OLLAMA_KEEP_ALIVE"), String::from_str("10m")));
    r.push((String::from_str("OLLAMA_GPU_OVERHEAD"), String::from_str("1024")));
    r.push((String::from_str("OLLAMA_KV_CACHE_TYPE"), String::from_str("q8_0")));
    r.push((String::from_str("OLLAMA_HOST"), format_host_port(host, port)));
    proof {
        assert(r.deep_view() =~~= ollama_environment_spec(host@, port));
    }
    r
}

/// Resolve the MLX model: the environment value or the built-in default.
pub fn mlx_model(env_value: Option<&str>) -> (r: String)
    ensures
        r@ == (match opt_str_view(env_value) {
            Some(v) => v,
            None => MLX_MODEL_DEFAULT@,
        }),
{
    match env_value {
        Some(v) => String::from_str(v),
        None => String::from_str(MLX_MODEL_DEFAULT),
    }
}

} // verus!
