//! Parsing of the container runtime's query output.
//!
//! The runtime is reached through its command-line tool; running that tool
//! is I/O and stays with the caller. What is verified here is the reading of
//! its output: one container id per line from a listing, and
//! `"<id> <init-pid> <name>"` triples from an inspection, keyed later by
//! init PID.

use vstd::prelude::*;

use crate::digits::{all_digits, digits_val, lemma_pow10_19, lemma_pow10_mono, scan_digits};
use crate::docker::container::{ctr_matches, Container, State};
use crate::nv_gpu::{
    find_char, lemma_first_ch_none, lemma_first_ch_unique, spec_first_ch,
};

verus! {

pub type Id = String;

pub type ShortId = String;

/// The output-parsing half of the container-runtime query surface.
#[derive(Debug)]
pub struct Docker {}

/// Command output with its single trailing newline removed.
pub open spec fn spec_trim_nl(s: Seq<char>) -> Seq<char> {
    if s.len() > 0 && s.last() == '\n' {
        s.drop_last()
    } else {
        s
    }
}

/// The newline-separated pieces of `s`, empty pieces kept.
pub open spec fn spec_lines(s: Seq<char>) -> Seq<Seq<char>>
    decreases s.len(),
{
    match spec_first_ch(s, '\n') {
        None => seq![s],
        Some(i) => if 0 <= i < s.len() {
            seq![s.take(i)] + spec_lines(s.skip(i + 1))
        } else {
            seq![s]
        },
    }
}

/// One `"<id> <pid> <name>"` inspection line: id up to the first space, an
/// init PID of one to nine digits, a name up to the next space or the end,
/// with a leading `/` stripped. Anything else is no container record.
pub open spec fn spec_inspect_line(s: Seq<char>) -> Option<(Seq<char>, nat, Seq<char>)> {
    match spec_first_ch(s, ' ') {
        None => None,
        Some(i) => {
            let rest = s.skip(i + 1);
            match spec_first_ch(rest, ' ') {
                None => None,
                Some(j) => {
                    let pid_tok = rest.take(j);
                    let tail = rest.skip(j + 1);
                    let name_tok = match spec_first_ch(tail, ' ') {
                        None => tail,
                        Some(k) => tail.take(k),
                    };
                    let name = if name_tok.len() > 0 && name_tok[0] == '/' {
                        name_tok.skip(1)
                    } else {
                        name_tok
                    };
                    if 1 <= pid_tok.len() <= 9 && all_digits(pid_tok) {
                        Some((s.take(i), digits_val(pid_tok), name))
                    } else {
                        None
                    }
                },
            }
        },
    }
}

/// The container records of an inspection listing: empty lines are skipped,
/// lines that do not parse yield no record.
pub open spec fn spec_containers(lines: Seq<Seq<char>>) -> Seq<(Seq<char>, nat, Seq<char>)>
    decreases lines.len(),
{
    if lines.len() == 0 {
        Seq::empty()
    } else {
        let rest = spec_containers(lines.skip(1));
        if lines[0].len() == 0 {
            rest
        } else {
            match spec_inspect_line(lines[0]) {
                Some(t) => seq![t] + rest,
                None => rest,
            }
        }
    }
}

/// Splits trimmed command output into lines.
fn split_lines(raw: &str) -> (r: Vec<String>)
    ensures
        ({
            let lines = spec_lines(spec_trim_nl(raw@));
            &&& r@.len() == lines.len()
            &&& forall|i: int| 0 <= i < lines.len() ==> (#[trigger] r@[i])@ == lines[i]
        }),
{
    let n = raw.unicode_len();
    let end: usize = if n > 0 && raw.get_char(n - 1) == '\n' {
        n - 1
    } else {
        n
    };
    let ghost trimmed = spec_trim_nl(raw@);
    proof {
        assert(trimmed =~= raw@.subrange(0, end as int));
    }
    let mut out: Vec<String> = Vec::new();
    let ghost mut model: Seq<Seq<char>> = Seq::empty();
    let mut start: usize = 0;
    loop
        invariant
            start <= end <= raw@.len(),
            trimmed == raw@.subrange(0, end as int),
            out@.len() == model.len(),
            forall|i: int| 0 <= i < model.len() ==> (#[trigger] out@[i])@ == model[i],
            spec_lines(trimmed) == model + spec_lines(raw@.subrange(start as int, end as int)),
        ensures
            start <= end <= raw@.len(),
            out@.len() == model.len(),
            forall|i: int| 0 <= i < model.len() ==> (#[trigger] out@[i])@ == model[i],
            spec_lines(trimmed) == model + spec_lines(raw@.subrange(start as int, end as int)),
            spec_first_ch(raw@.subrange(start as int, end as int), '\n') is None,
        decreases end - start,
    {
        let ghost rem = raw@.subrange(start as int, end as int);
        match find_char(raw, start, end, '\n') {
            Some(i) => {
                proof {
                    assert(rem[i - start] == raw@[i as int]);
                    assert forall|j: int| 0 <= j < i - start implies rem[j] != '\n' by {
                        assert(rem[j] == raw@[start + j]);
                    }
                    lemma_first_ch_unique(rem, '\n', i - start);
                    assert(rem.take(i - start) =~= raw@.subrange(start as int, i as int));
                    assert(rem.skip(i - start + 1) =~= raw@.subrange(i + 1 as int, end as int));
                    assert(model + (seq![rem.take(i - start)] + spec_lines(
                        rem.skip(i - start + 1),
                    )) =~= (model + seq![rem.take(i - start)]) + spec_lines(
                        rem.skip(i - start + 1),
                    ));
                }
                let piece = raw.substring_char(start, i).to_owned();
                proof {
                    assert(piece@ =~= rem.take(i - start));
                }
                out.push(piece);
                proof {
                    model = model.push(rem.take(i - start));
                    assert(model.drop_last() + seq![model.last()] =~= model);
                }
                start = i + 1;
            },
            None => {
                proof {
                    assert forall|j: int| 0 <= j < rem.len() implies rem[j] != '\n' by {
                        assert(rem[j] == raw@[start + j]);
                    }
                    lemma_first_ch_none(rem, '\n');
                }
                break ;
            },
        }
    }
    let ghost rem = raw@.subrange(start as int, end as int);
    let piece = raw.substring_char(start, end).to_owned();
    proof {
        assert(piece@ =~= rem);
        assert(spec_lines(rem) == seq![rem]);
        assert(model + seq![rem] =~= model.push(rem));
    }
    out.push(piece);
    proof {
        model = model.push(rem);
    }
    out
}

impl Docker {
    pub fn new() -> (r: Self) {
        Docker {  }
    }

    /// One short container id per line of a listing's output.
    pub fn ps(&self, raw: &str) -> (ids: Vec<ShortId>)
        ensures
            ({
                let lines = spec_lines(spec_trim_nl(raw@));
                &&& ids@.len() == lines.len()
                &&& forall|i: int| 0 <= i < lines.len() ==> (#[trigger] ids@[i])@ == lines[i]
            }),
    {
        split_lines(raw)
    }

    /// Reads one `"<id> <pid> <name>"` triple; `None` when the line does
    /// not have that shape.
    fn load_ctr_from_inspect(&self, out: &str) -> (r: Option<Container>)
        ensures
            match spec_inspect_line(out@) {
                None => r is None,
                Some(t) => r matches Some(c) && ctr_matches(c, t),
            },
    {
        let n = out.unicode_len();
        let i = match find_char(out, 0, n, ' ') {
            None => {
                proof {
                    lemma_first_ch_none(out@, ' ');
                }
                return None;
            },
            Some(i) => i,
        };
        proof {
            lemma_first_ch_unique(out@, ' ', i as int);
        }
        let ghost rest = out@.skip(i + 1);
        let j = match find_char(out, i + 1, n, ' ') {
            None => {
                proof {
                    assert forall|k: int| 0 <= k < rest.len() implies rest[k] != ' ' by {
                        assert(rest[k] == out@[i + 1 + k]);
                    }
                    lemma_first_ch_none(rest, ' ');
                }
                return None;
            },
            Some(j) => j,
        };
        proof {
            assert(rest[j - (i + 1)] == out@[j as int]);
            assert forall|k: int| 0 <= k < j - (i + 1) implies rest[k] != ' ' by {
                assert(rest[k] == out@[i + 1 + k]);
            }
            lemma_first_ch_unique(rest, ' ', j - (i + 1));
            assert(rest.take(j - (i + 1)) =~= out@.subrange(i + 1 as int, j as int));
        }
        let ghost tail = rest.skip(j - (i + 1) + 1);
        proof {
            assert(tail =~= out@.subrange(j + 1 as int, n as int));
        }
        let name_end: usize = match find_char(out, j + 1, n, ' ') {
            Some(k) => {
                proof {
                    assert(tail[k - (j + 1)] == out@[k as int]);
                    assert forall|m: int| 0 <= m < k - (j + 1) implies tail[m] != ' ' by {
                        assert(tail[m] == out@[j + 1 + m]);
                    }
                    lemma_first_ch_unique(tail, ' ', k - (j + 1));
                }
                k
            },
            None => {
                proof {
                    assert forall|m: int| 0 <= m < tail.len() implies tail[m] != ' ' by {
                        assert(tail[m] == out@[j + 1 + m]);
                    }
                    lemma_first_ch_none(tail, ' ');
                }
                n
            },
        };
        let ghost name_tok = out@.subrange(j + 1 as int, name_end as int);
        proof {
            assert(match spec_first_ch(tail, ' ') {
                None => tail,
                Some(k) => tail.take(k),
            } =~= name_tok);
        }
        if j - (i + 1) < 1 || j - (i + 1) > 9 {
            return None;
        }
        let pid = match scan_digits(out, i + 1, j) {
            None => {
                return None;
            },
            Some(v) => {
                proof {
                    crate::digits::lemma_digits_val_bound(out@.subrange(i + 1 as int, j as int));
                    lemma_pow10_mono(out@.subrange(i + 1 as int, j as int).len(), 9);
                    lemma_pow10_19();
                }
                v as u32
            },
        };
        let name = if name_end > j + 1 && out.get_char(j + 1) == '/' {
            let s = out.substring_char(j + 2, name_end).to_owned();
            proof {
                assert(s@ =~= name_tok.skip(1));
            }
            s
        } else {
            let s = out.substring_char(j + 1, name_end).to_owned();
            proof {
                assert(s@ =~= name_tok);
            }
            s
        };
        let id = out.substring_char(0, i).to_owned();
        proof {
            assert(id@ =~= out@.take(i as int));
        }
        Some(Container { id, name, state: State { pid } })
    }

    /// Reads the single inspection line of one container's query output.
    pub fn inspect(&self, raw: &str) -> (r: Option<Container>)
        ensures
            match spec_inspect_line(spec_trim_nl(raw@)) {
                None => r is None,
                Some(t) => r matches Some(c) && ctr_matches(c, t),
            },
    {
        let n = raw.unicode_len();
        let end: usize = if n > 0 && raw.get_char(n - 1) == '\n' {
            n - 1
        } else {
            n
        };
        let line = raw.substring_char(0, end);
        proof {
            assert(line@ =~= spec_trim_nl(raw@));
        }
        self.load_ctr_from_inspect(line)
    }

    /// Reads every container record of a whole-listing inspection: one line
    /// per container, empty and unreadable lines skipped.
    pub fn inspect_all(&self, raw: &str) -> (r: Vec<Container>)
        ensures
            ({
                let model = spec_containers(spec_lines(spec_trim_nl(raw@)));
                &&& r@.len() == model.len()
                &&& forall|i: int|
                    0 <= i < model.len() ==> ctr_matches(#[trigger] r@[i], model[i])
            }),
    {
        let lines = split_lines(raw);
        let ghost lmodel = spec_lines(spec_trim_nl(raw@));
        let mut out: Vec<Container> = Vec::new();
        let mut idx: usize = 0;
        let ghost total = spec_containers(lmodel);
        proof {
            assert(lmodel.skip(0) =~= lmodel);
        }
        while idx < lines.len()
            invariant
                idx <= lines.len(),
                lines@.len() == lmodel.len(),
                forall|i: int| 0 <= i < lmodel.len() ==> (#[trigger] lines@[i])@ == lmodel[i],
                total == spec_containers(lmodel),
                out@.len() <= total.len(),
                spec_containers(lmodel.skip(idx as int)).len() == total.len() - out@.len(),
                forall|i: int|
                    0 <= i < out@.len() ==> ctr_matches(#[trigger] out@[i], total[i]),
                total.skip(out@.len() as int) == spec_containers(lmodel.skip(idx as int)),
            decreases lines@.len() - idx,
        {
            let ghost rest = lmodel.skip(idx as int);
            proof {
                assert(rest[0] == lmodel[idx as int]);
                assert(rest.skip(1) =~= lmodel.skip(idx as int + 1));
            }
            let line = &lines[idx];
            if line.as_str().unicode_len() > 0 {
                match self.load_ctr_from_inspect(line.as_str()) {
                    Some(c) => {
                        proof {
                            let t = spec_inspect_line(lmodel[idx as int]) -> Some_0;
                            assert(spec_containers(rest) == seq![t] + spec_containers(
                                rest.skip(1),
                            ));
                            assert(total.skip(out@.len() as int)[0] == t);
                            assert(total[out@.len() as int] == t);
                            assert((seq![t] + spec_containers(rest.skip(1))).skip(1)
                                =~= spec_containers(rest.skip(1)));
                            assert(total.skip(out@.len() as int).skip(1) =~= total.skip(
                                out@.len() as int + 1,
                            ));
                        }
                        out.push(c);
                    },
                    None => {
                    },
                }
            }
            idx = idx + 1;
        }
        proof {
            assert(lmodel.skip(idx as int) =~= Seq::<Seq<char>>::empty());
            assert(spec_containers(lmodel.skip(idx as int)).len() == 0);
        }
        out
    }
}

} // verus!
