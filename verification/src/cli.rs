//! Service selection, display labels, log tailing, and the decision
//! core of the readiness-wait loop.

use vstd::prelude::*;
use vstd::string::*;

use crate::text::split_char;
use crate::text::split_str;

verus! {

/// The two managed runtimes.
#[derive(Debug, Clone, Copy, PartialEq, Eq, Structural)]
pub enum ServiceType {
    Ollama,
    Mlx,
}

/// Subcommands of the configuration command.
#[derive(Debug)]
pub enum ServiceConfigCommand {
    Show,
    Edit,
    Path,
    SetValue { key: String, value: String },
}

/// Human-readable label of a runtime.
pub fn service_label(service_type: ServiceType) -> (r: &'static str)
    ensures
        service_type == ServiceType::Ollama ==> r@ == "Ollama"@,
        service_type == ServiceType::Mlx ==> r@ == "MLX"@,
{
    match service_type {
        ServiceType::Ollama => "Ollama",
        ServiceType::Mlx => "MLX",
    }
}

/// Machine name of a runtime, as used in state-file names and errors.
pub fn service_machine_name(service_type: ServiceType) -> (r: &'static str)
    ensures
        service_type == ServiceType::Ollama ==> r@ == "ollama"@,
        service_type == ServiceType::Mlx ==> r@ == "mlx"@,
{
    match service_type {
        ServiceType::Ollama => "ollama",
        ServiceType::Mlx => "mlx",
    }
}

/// A trailing carriage return stripped, as a line read from a log may
/// carry one.
pub open spec fn strip_cr(l: Seq<char>) -> Seq<char> {
    if l.len() > 0 && l.last() == '\r' {
        l.drop_last()
    } else {
        l
    }
}

/// The lines of a text: divided at newlines, a final empty segment
/// dropped, each line's trailing carriage return removed.
pub open spec fn line_seq(s: Seq<char>) -> Seq<Seq<char>> {
    let parts = split_char(s, '\n');
    let kept = if parts.len() > 0 && parts.last().len() == 0 {
        parts.drop_last()
    } else {
        parts
    };
    kept.map_values(|l: Seq<char>| strip_cr(l))
}

/// The last `count` lines of a text.
pub open spec fn tail_spec(s: Seq<char>, count: int) -> Seq<Seq<char>> {
    let ls = line_seq(s);
    if ls.len() <= count {
        ls
    } else {
        ls.subrange(ls.len() - count, ls.len() as int)
    }
}

/// Keep the last `count` lines of a log's contents.
pub fn tail_lines(contents: &str, count: usize) -> (r: Vec<String>)
    ensures
        r.deep_view() == tail_spec(contents@, count as int),
{
    let mut parts = split_str(contents, '\n');
    let ghost raw = split_char(contents@, '\n');
    if parts.len() > 0 && parts[parts.len() - 1].unicode_len() == 0 {
        parts.pop();
        proof {
            assert(parts.deep_view() =~= raw.drop_last());
        }
    }
    let ghost kept = if raw.len() > 0 && raw.last().len() == 0 {
        raw.drop_last()
    } else {
        raw
    };
    let mut lines: Vec<String> = Vec::new();
    let mut i: usize = 0;
    while i < parts.len()
        invariant
            i <= parts@.len(),
            parts.deep_view() == kept,
            parts@.len() == kept.len(),
            lines.deep_view() == kept.subrange(0, i as int).map_values(
                |l: Seq<char>| strip_cr(l),
            ),
        decreases parts@.len() - i,
    {
        let line = &parts[i];
        let llen = line.unicode_len();
        let stripped: String = if llen > 0 && line.as_str().get_char(llen - 1) == '\r' {
            String::from_str(line.as_str().substring_char(0, llen - 1))
        } else {
            line.clone()
        };
        proof {
            if llen > 0 && line@[llen - 1] == '\r' {
                assert(line@.subrange(0, llen - 1) =~= line@.drop_last());
            }
            assert(stripped@ == strip_cr(kept[i as int]));
        }
        lines.push(stripped);
        proof {
            assert(kept.subrange(0, i + 1) =~= kept.subrange(0, i as int).push(kept[i as int]));
            assert(kept.subrange(0, i + 1).map_values(|l: Seq<char>| strip_cr(l)) =~= kept.subrange(
                0,
                i as int,
            ).map_values(|l: Seq<char>| strip_cr(l)).push(strip_cr(kept[i as int])));
            assert(lines.deep_view() =~= kept.subrange(0, i + 1).map_values(
                |l: Seq<char>| strip_cr(l),
            ));
        }
        i += 1;
    }
    proof {
        assert(kept.subrange(0, kept.len() as int) =~= kept);
        assert(lines.deep_view() == line_seq(contents@));
    }
    if lines.len() <= count {
        proof {
            assert(tail_spec(contents@, count as int) == lines.deep_view());
        }
        return lines;
    }
    let start = lines.len() - count;
    let mut tail: Vec<String> = Vec::new();
    let mut j: usize = start;
    proof {
        assert(tail.deep_view() =~= lines.deep_view().subrange(start as int, start as int));
    }
    while j < lines.len()
        invariant
            start <= j <= lines@.len(),
            start + count == lines@.len(),
            lines.deep_view().len() == lines@.len(),
            lines.deep_view() == line_seq(contents@),
            tail.deep_view() == lines.deep_view().subrange(start as int, j as int),
        decreases lines@.len() - j,
    {
        tail.push(lines[j].clone());
        proof {
            assert(lines@[j as int]@ == lines.deep_view()[j as int]);
            assert(lines.deep_view().subrange(start as int, j + 1) =~= lines.deep_view().subrange(
                start as int,
                j as int,
            ).push(lines.deep_view()[j as int]));
            assert(tail.deep_view() =~= lines.deep_view().subrange(start as int, j + 1));
        }
        j += 1;
    }
    proof {
        assert(tail.deep_view() =~= tail_spec(contents@, count as int));
    }
    tail
}

/// What the readiness-wait loop should do after one observation of the
/// world: a spent timeout ends the wait, a dead process is fatal, a
/// successful probe means ready, anything else means try again.
#[derive(Debug, Clone, Copy, PartialEq, Eq, Structural)]
pub enum ReadinessDecision {
    Ready,
    Retry,
    ProcessDied,
    TimedOut,
}

/// Decide one tick of the readiness-wait loop.
pub fn readiness_step(
    process_alive: bool,
    probe_succeeded: bool,
    elapsed_secs: u64,
    timeout_secs: u64,
) -> (r: ReadinessDecision)
    ensures
        r == (if elapsed_secs >= timeout_secs {
            ReadinessDecision::TimedOut
        } else if !process_alive {
            ReadinessDecision::ProcessDied
        } else if probe_succeeded {
            ReadinessDecision::Ready
        } else {
            ReadinessDecision::Retry
        }),
{
    if elapsed_secs >= timeout_secs {
        ReadinessDecision::TimedOut
    } else if !process_alive {
        ReadinessDecision::ProcessDied
    } else if probe_succeeded {
        ReadinessDecision::Ready
    } else {
        ReadinessDecision::Retry
    }
}

} // verus!
