//! Codecs for the two persisted record formats.
//!
//! A PID record is one signed decimal integer, newline-terminated. A
//! runtime-config record is a sequence of `key=value` lines carrying
//! `host` and `port`. Reading tolerates blank lines, unknown keys and
//! surrounding whitespace; a later occurrence of a key wins; an
//! unparseable port is an error, and a record missing either key is
//! treated as absent.

use vstd::prelude::*;
use vstd::string::*;

use crate::num::{
    dec_digits, i32_string, is_digit, lemma_dec_digits_val, parse_i32, parse_i32_spec, parse_u16,
    parse_unsigned_spec, signed_dec_digits, u64_string,
};
use crate::text::{
    first_index, find_char, is_space, split_char, split_str, str_eq, trim_spec, trim_str,
};

verus! {

/// The text written for a PID record.
pub open spec fn pid_record_text(pid: i32) -> Seq<char> {
    signed_dec_digits(pid as int) + seq!['\n']
}

/// What reading a PID record yields: absent content reads as `None`,
/// malformed content is an error.
pub open spec fn parse_pid_spec(s: Seq<char>) -> Result<Option<i32>, ()> {
    let t = trim_spec(s);
    if t.len() == 0 {
        Ok(None)
    } else {
        match parse_i32_spec(t) {
            Some(p) => Ok(Some(p)),
            None => Err(()),
        }
    }
}

/// Render a PID record.
pub fn format_pid_record(pid: i32) -> (r: String)
    ensures
        r@ == pid_record_text(pid),
{
    proof {
        reveal_strlit("\n");
    }
    let r = i32_string(pid).concat("\n");
    proof {
        assert(r@ =~= pid_record_text(pid));
    }
    r
}

/// Parse a PID record.
pub fn parse_pid_record(s: &str) -> (r: Result<Option<i32>, ()>)
    ensures
        r == parse_pid_spec(s@),
{
    let t = trim_str(s);
    if t.unicode_len() == 0 {
        Ok(None)
    } else {
        match parse_i32(t) {
            Some(p) => Ok(Some(p)),
            None => Err(()),
        }
    }
}

/// The text written for a runtime-config record.
pub open spec fn cfg_record_text(host: Seq<char>, port: u16) -> Seq<char> {
    "host="@ + host + seq!['\n'] + "port="@ + dec_digits(port as int) + seq!['\n']
}

pub open spec fn opt_view(o: Option<String>) -> Option<Seq<char>> {
    match o {
        Some(s) => Some(s@),
        None => None,
    }
}

pub open spec fn opt_pair_view(o: Option<(String, u16)>) -> Option<(Seq<char>, u16)> {
    match o {
        Some(p) => Some((p.0@, p.1)),
        None => None,
    }
}

/// Folding one line after another into the host/port pair seen so far.
pub open spec fn cfg_scan(
    lines: Seq<Seq<char>>,
    host: Option<Seq<char>>,
    port: Option<u16>,
) -> Result<(Option<Seq<char>>, Option<u16>), ()>
    decreases lines.len(),
{
    if lines.len() == 0 {
        Ok((host, port))
    } else {
        let line = trim_spec(lines[0]);
        let rest = lines.drop_first();
        if line.len() == 0 {
            cfg_scan(rest, host, port)
        } else {
            let i = first_index(line, '=');
            if i == line.len() {
                cfg_scan(rest, host, port)
            } else {
                let key = trim_spec(line.subrange(0, i));
                let value = trim_spec(line.subrange(i + 1, line.len() as int));
                if key == "host"@ {
                    cfg_scan(rest, Some(value), port)
                } else if key == "port"@ {
                    match parse_unsigned_spec(value, 0xffff) {
                        Some(v) => cfg_scan(rest, host, Some(v as u16)),
                        None => Err(()),
                    }
                } else {
                    cfg_scan(rest, host, port)
                }
            }
        }
    }
}

/// What reading a runtime-config record yields: both keys present gives
/// the pair, a missing key gives `None`, a malformed port is an error.
pub open spec fn parse_cfg_spec(s: Seq<char>) -> Result<Option<(Seq<char>, u16)>, ()> {
    match cfg_scan(split_char(s, '\n'), None, None) {
        Ok((Some(h), Some(p))) => Ok(Some((h, p))),
        Ok(_) => Ok(None),
        Err(_) => Err(()),
    }
}

/// Render a runtime-config record.
pub fn format_cfg_record(host: &str, port: u16) -> (r: String)
    ensures
        r@ == cfg_record_text(host@, port),
{
    proof {
        reveal_strlit("host=");
        reveal_strlit("port=");
        reveal_strlit("\n");
    }
    let r = String::from_str("host=").concat(host).concat("\n").concat("port=").concat(
        u64_string(port as u64).as_str(),
    ).concat("\n");
    proof {
        assert(r@ =~= cfg_record_text(host@, port));
    }
    r
}

/// Parse a runtime-config record.
pub fn parse_cfg_record(s: &str) -> (r: Result<Option<(String, u16)>, ()>)
    ensures
        match r {
            Ok(v) => parse_cfg_spec(s@) == Ok::<Option<(Seq<char>, u16)>, ()>(opt_pair_view(v)),
            Err(_) => parse_cfg_spec(s@) is Err,
        },
{
    let lines = split_str(s, '\n');
    let ghost all = split_char(s@, '\n');
    let mut host: Option<String> = None;
    let mut port: Option<u16> = None;
    let mut i: usize = 0;
    proof {
        assert(all.subrange(0, all.len() as int) =~= all);
    }
    while i < lines.len()
        invariant
            i <= lines@.len(),
            all == split_char(s@, '\n'),
            lines.deep_view() == all,
            lines@.len() == all.len(),
            cfg_scan(all, None, None) == cfg_scan(
                all.subrange(i as int, all.len() as int),
                opt_view(host),
                port,
            ),
        decreases lines@.len() - i,
    {
        let ghost rem = all.subrange(i as int, all.len() as int);
        proof {
            assert(rem[0] == all[i as int]);
            assert(rem.drop_first() =~= all.subrange(i + 1, all.len() as int));
            assert(lines@[i as int]@ == all[i as int]);
        }
        let line = trim_str(lines[i].as_str());
        if line.unicode_len() != 0 {
            let eq = find_char(line, '=');
            let llen = line.unicode_len();
            proof {
                crate::text::lemma_first_index_props(line@, '=');
            }
            if eq != llen {
                let key = trim_str(line.substring_char(0, eq));
                let value = trim_str(line.substring_char(eq + 1, llen));
                if str_eq(key, "host") {
                    host = Some(String::from_str(value));
                } else if str_eq(key, "port") {
                    match parse_u16(value) {
                        Some(v) => {
                            port = Some(v);
                        },
                        None => {
                            return Err(());
                        },
                    }
                }
            }
        }
        i += 1;
    }
    proof {
        assert(all.subrange(all.len() as int, all.len() as int) =~= Seq::<Seq<char>>::empty());
    }
    match (host, port) {
        (Some(h), Some(p)) => Ok(Some((h, p))),
        _ => Ok(None),
    }
}

proof fn lemma_digits_clean(s: Seq<char>)
    requires
        crate::num::all_digits(s),
    ensures
        forall|i: int|
            0 <= i < s.len() ==> !is_space(#[trigger] s[i]) && s[i] != '\n' && s[i] != '='
                && s[i] != '+' && s[i] != '-',
{
    assert forall|i: int|
        0 <= i < s.len() implies !is_space(#[trigger] s[i]) && s[i] != '\n' && s[i] != '='
            && s[i] != '+' && s[i] != '-' by {
        assert(is_digit(s[i]));
        assert('0' as u32 == 48 && '9' as u32 == 57);
        assert(' ' as u32 == 32 && '\t' as u32 == 9 && '\n' as u32 == 10 && '\r' as u32 == 13);
        assert('=' as u32 == 61 && '+' as u32 == 43 && '-' as u32 == 45);
    }
}

proof fn lemma_trim_of_clean(s: Seq<char>)
    requires
        s.len() == 0 || (!is_space(s[0]) && !is_space(s[s.len() - 1])),
    ensures
        trim_spec(s) == s,
{
    crate::text::lemma_trim_subrange(s, 0, s.len() as int);
    assert(s.subrange(0, s.len() as int) =~= s);
}

/// A PID record written by the codec reads back as the same PID.
pub proof fn lemma_pid_roundtrip(pid: i32)
    ensures
        parse_pid_spec(pid_record_text(pid)) == Ok::<Option<i32>, ()>(Some(pid)),
{
    let sd = signed_dec_digits(pid as int);
    let text = pid_record_text(pid);
    let mag: int = if pid < 0 {
        -(pid as int)
    } else {
        pid as int
    };
    lemma_dec_digits_val(mag);
    lemma_digits_clean(dec_digits(mag));
    assert('-' as u32 == 45 && '\n' as u32 == 10);
    if pid < 0 {
        assert(sd[0] == '-');
        assert(sd.len() == 1 + dec_digits(mag).len());
        assert(forall|i: int| 1 <= i < sd.len() ==> #[trigger] sd[i] == dec_digits(mag)[i - 1]);
        assert(!is_space(sd[0]));
        assert(!is_space(sd[sd.len() - 1]));
    } else {
        assert(sd == dec_digits(mag));
        assert(!is_space(sd[0]));
        assert(!is_space(sd[sd.len() - 1]));
    }
    // Trimming the record leaves exactly the digit string.
    crate::text::lemma_trim_subrange(text, 0, sd.len() as int);
    assert(text.subrange(0, sd.len() as int) =~= sd);
    assert(trim_spec(text) == sd);
    assert(sd.len() > 0);
    // The digit string parses back to the PID.
    if pid < 0 {
        let digits = sd.subrange(1, sd.len() as int);
        assert(digits =~= dec_digits(mag));
        assert(mag <= 0x8000_0000);
        assert(parse_i32_spec(sd) == Some((-mag) as i32));
        assert((-mag) as i32 == pid);
    } else {
        assert(sd[0] != '-' && sd[0] != '+');
        assert(mag <= 0x7fff_ffff);
        assert(parse_i32_spec(sd) == Some(mag as i32));
    }
}

proof fn lemma_split_of_cfg_record(host: Seq<char>, port: u16)
    requires
        crate::services::host_wf(host),
    ensures
        split_char(cfg_record_text(host, port), '\n') =~~= seq![
            "host="@ + host,
            "port="@ + dec_digits(port as int),
            Seq::<char>::empty(),
        ],
{
    reveal_strlit("host=");
    reveal_strlit("port=");
    let dd = dec_digits(port as int);
    lemma_dec_digits_val(port as int);
    lemma_digits_clean(dd);
    let text = cfg_record_text(host, port);
    let k1: int = 5 + host.len() as int;
    assert(text[k1] == '\n');
    assert forall|j: int| 0 <= j < k1 implies #[trigger] text[j] != '\n' by {
        if j < 5 {
            assert(text[j] == "host="@[j]);
        } else {
            assert(text[j] == host[j - 5]);
        }
    }
    crate::text::lemma_first_index_is(text, '\n', k1);
    let l0 = text.subrange(0, k1);
    let rest1 = text.subrange(k1 + 1, text.len() as int);
    assert(l0 =~= "host="@ + host);
    assert(rest1 =~= "port="@ + dd + seq!['\n']);
    let k2: int = 5 + dd.len() as int;
    assert(rest1[k2] == '\n');
    assert forall|j: int| 0 <= j < k2 implies #[trigger] rest1[j] != '\n' by {
        if j < 5 {
            assert(rest1[j] == "port="@[j]);
        } else {
            assert(rest1[j] == dd[j - 5]);
        }
    }
    crate::text::lemma_first_index_is(rest1, '\n', k2);
    let l1 = rest1.subrange(0, k2);
    let rest2 = rest1.subrange(k2 + 1, rest1.len() as int);
    assert(l1 =~= "port="@ + dd);
    assert(rest2 =~= Seq::<char>::empty());
    crate::text::lemma_first_index_is(rest2, '\n', 0);
    assert(split_char(rest2, '\n') =~~= seq![Seq::<char>::empty()]);
    assert(split_char(rest1, '\n') =~~= seq![l1, Seq::<char>::empty()]);
}

/// Any host a runtime-config record yields is itself a valid host:
/// trimmed and free of newlines, so it survives being written back.
pub proof fn lemma_cfg_scan_host_wf(
    lines: Seq<Seq<char>>,
    host: Option<Seq<char>>,
    port: Option<u16>,
)
    requires
        forall|i: int, j: int|
            0 <= i < lines.len() && 0 <= j < lines[i].len() ==> #[trigger] lines[i][j] != '\n',
        match host {
            Some(h) => crate::services::host_wf(h),
            None => true,
        },
    ensures
        match cfg_scan(lines, host, port) {
            Ok(hp) => match hp.0 {
                Some(h) => crate::services::host_wf(h),
                None => true,
            },
            Err(_) => true,
        },
    decreases lines.len(),
{
    if lines.len() > 0 {
        let line = trim_spec(lines[0]);
        let rest = lines.drop_first();
        assert forall|i: int, j: int|
            0 <= i < rest.len() && 0 <= j < rest[i].len() implies #[trigger] rest[i][j]
            != '\n' by {
            assert(rest[i] == lines[i + 1]);
        }
        assert(forall|j: int| 0 <= j < lines[0].len() ==> #[trigger] lines[0][j] != '\n');
        crate::text::lemma_trim_excludes(lines[0], '\n');
        if line.len() == 0 {
            lemma_cfg_scan_host_wf(rest, host, port);
        } else {
            let i = first_index(line, '=');
            if i == line.len() {
                lemma_cfg_scan_host_wf(rest, host, port);
            } else {
                crate::text::lemma_first_index_props(line, '=');
                let key = trim_spec(line.subrange(0, i));
                let tail = line.subrange(i + 1, line.len() as int);
                let value = trim_spec(tail);
                if key == "host"@ {
                    crate::text::lemma_trim_idempotent(tail);
                    assert(forall|j: int| 0 <= j < tail.len() ==> #[trigger] tail[j] != '\n');
                    crate::text::lemma_trim_excludes(tail, '\n');
                    assert(crate::services::host_wf(value));
                    lemma_cfg_scan_host_wf(rest, Some(value), port);
                } else if key == "port"@ {
                    if parse_unsigned_spec(value, 0xffff) is Some {
                        let p = parse_unsigned_spec(value, 0xffff)->Some_0;
                        lemma_cfg_scan_host_wf(rest, host, Some(p as u16));
                    }
                } else {
                    lemma_cfg_scan_host_wf(rest, host, port);
                }
            }
        }
    }
}

/// Whatever a runtime-config record parses to carries a valid host.
pub proof fn lemma_parse_cfg_host_wf(s: Seq<char>)
    ensures
        match parse_cfg_spec(s) {
            Ok(Some(hp)) => crate::services::host_wf(hp.0),
            _ => true,
        },
{
    let lines = split_char(s, '\n');
    assert forall|i: int, j: int|
        0 <= i < lines.len() && 0 <= j < lines[i].len() implies #[trigger] lines[i][j]
        != '\n' by {
        crate::text::lemma_split_segment_clean(s, '\n', i, j);
    }
    lemma_cfg_scan_host_wf(lines, None, None);
}

/// A runtime-config record written by the codec reads back as exactly
/// the same host and port.
pub proof fn lemma_cfg_roundtrip(host: Seq<char>, port: u16)
    requires
        crate::services::host_wf(host),
    ensures
        parse_cfg_spec(cfg_record_text(host, port)) == Ok::<Option<(Seq<char>, u16)>, ()>(
            Some((host, port)),
        ),
{
    reveal_strlit("host=");
    reveal_strlit("port=");
    reveal_strlit("host");
    reveal_strlit("port");
    let dd = dec_digits(port as int);
    lemma_dec_digits_val(port as int);
    lemma_digits_clean(dd);
    lemma_split_of_cfg_record(host, port);
    let l0 = "host="@ + host;
    let l1 = "port="@ + dd;
    let lines = split_char(cfg_record_text(host, port), '\n');
    assert(lines[0] == l0 && lines[1] == l1 && lines[2] == Seq::<char>::empty());
    assert(lines.len() == 3);

    // Line 0 carries the host.
    assert(!is_space(l0[0]));
    if host.len() == 0 {
        assert(l0[l0.len() - 1] == '=');
        assert('=' as u32 == 61);
        assert(!is_space(l0[l0.len() - 1]));
    } else {
        assert(l0[l0.len() - 1] == host[host.len() - 1]);
        assert(trim_spec(host) == host);
        if is_space(host[host.len() - 1]) {
            if is_space(host[0]) {
                crate::text::lemma_trim_len(host.drop_first());
            } else {
                crate::text::lemma_trim_len(host.drop_last());
            }
            assert(trim_spec(host).len() < host.len());
            assert(false);
        }
    }
    lemma_trim_of_clean(l0);
    assert forall|j: int| 0 <= j < 4 implies #[trigger] l0[j] != '=' by {
        assert(l0[j] == "host="@[j]);
    }
    assert(l0[4] == '=');
    crate::text::lemma_first_index_is(l0, '=', 4);
    assert(l0.subrange(0, 4) =~= "host"@);
    lemma_trim_of_clean("host"@);
    assert(l0.subrange(5, l0.len() as int) =~= host);
    assert(trim_spec(l0.subrange(5, l0.len() as int)) == host);

    // Line 1 carries the port.
    assert(!is_space(l1[0]));
    assert(l1[l1.len() - 1] == dd[dd.len() - 1]);
    lemma_trim_of_clean(l1);
    assert forall|j: int| 0 <= j < 4 implies #[trigger] l1[j] != '=' by {
        assert(l1[j] == "port="@[j]);
    }
    assert(l1[4] == '=');
    crate::text::lemma_first_index_is(l1, '=', 4);
    assert(l1.subrange(0, 4) =~= "port"@);
    lemma_trim_of_clean("port"@);
    assert("port"@ != "host"@) by {
        assert("port"@[0] == 'p' && "host"@[0] == 'h');
    }
    assert(l1.subrange(5, l1.len() as int) =~= dd);
    assert(trim_spec(l1.subrange(5, l1.len() as int)) == dd);
    assert(dd[0] != '+');
    assert(parse_unsigned_spec(dd, 0xffff) == Some(port as int));

    // Folding the three lines yields both keys.
    let rest1 = lines.drop_first();
    let rest2 = rest1.drop_first();
    assert(rest2.drop_first() =~~= Seq::<Seq<char>>::empty());
    assert(rest1[0] == l1 && rest2[0] == Seq::<char>::empty());
    assert(cfg_scan(rest2.drop_first(), Some(host), Some(port)) == Ok::<_, ()>(
        (Some(host), Some(port)),
    ));
    assert(cfg_scan(rest2, Some(host), Some(port)) == Ok::<_, ()>((Some(host), Some(port))));
    assert(cfg_scan(rest1, Some(host), None) == Ok::<_, ()>((Some(host), Some(port))));
    assert(cfg_scan(lines, None, None) == Ok::<_, ()>((Some(host), Some(port))));
}

} // verus!
