//! Change statistics between two revisions of a document, for the
//! commit-history viewer: line-set differences and byte-length deltas.
//!
//! The line counts are set differences, so duplicated lines count once;
//! the byte counts are the growth or shrinkage of the whole text.

use vstd::prelude::*;
use vstd::string::StringSliceAdditionalSpecFns;

verus! {

/// Change statistics between two revisions.
#[derive(Debug, Clone, Copy, PartialEq, Eq, Structural)]
pub struct ChangeStats {
    pub lines_added: usize,
    pub lines_removed: usize,
    pub chars_added: usize,
    pub chars_removed: usize,
}

/// The position of the first line feed, if any.
pub open spec fn spec_first_nl(s: Seq<char>) -> Option<int>
    decreases s.len(),
{
    if s.len() == 0 {
        None
    } else if s[0] == '\n' {
        Some(0)
    } else {
        match spec_first_nl(s.drop_first()) {
            Some(i) => Some(i + 1),
            None => None,
        }
    }
}

/// The first line feed is one, everything before it is not.
pub proof fn lemma_first_nl(s: Seq<char>)
    ensures
        match spec_first_nl(s) {
            Some(i) => 0 <= i < s.len() && s[i] == '\n' && (forall|j: int|
                0 <= j < i ==> s[j] != '\n'),
            None => forall|j: int| 0 <= j < s.len() ==> s[j] != '\n',
        },
    decreases s.len(),
{
    if s.len() > 0 && s[0] != '\n' {
        let d = s.drop_first();
        lemma_first_nl(d);
        assert(forall|j: int| 0 <= j < d.len() ==> d[j] == s[j + 1]);
        match spec_first_nl(d) {
            Some(i) => {
                assert(s[i + 1] == '\n');
                assert forall|j: int| 0 <= j < i + 1 implies s[j] != '\n' by {
                    if j > 0 {
                        assert(d[j - 1] == s[j]);
                    }
                }
            },
            None => {
                assert forall|j: int| 0 <= j < s.len() implies s[j] != '\n' by {
                    if j > 0 {
                        assert(d[j - 1] == s[j]);
                    }
                }
            },
        }
    }
}

#[via_fn]
proof fn spec_split_nl_dec(s: Seq<char>) {
    lemma_first_nl(s);
}

/// The text split on line feeds, separators dropped, empty segments kept.
pub open spec fn spec_split_nl(s: Seq<char>) -> Seq<Seq<char>>
    decreases s.len(),
    via spec_split_nl_dec
{
    match spec_first_nl(s) {
        None => seq![s],
        Some(i) => seq![s.take(i)] + spec_split_nl(s.skip(i + 1)),
    }
}

/// A segment with one trailing carriage return removed: the leftover of
/// a `\r\n` line ending.
pub open spec fn spec_strip_cr(t: Seq<char>) -> Seq<char> {
    if t.len() > 0 && t[t.len() - 1] == '\r' {
        t.take(t.len() - 1)
    } else {
        t
    }
}

/// The lines of a text: segments between line feeds, a `\r` before each
/// line feed dropped, and the optional final line ending producing no
/// empty last line.
pub open spec fn spec_lines(s: Seq<char>) -> Seq<Seq<char>> {
    if s.len() == 0 {
        Seq::empty()
    } else {
        let raw = spec_split_nl(s);
        if s[s.len() - 1] == '\n' {
            Seq::new((raw.len() - 1) as nat, |i: int| spec_strip_cr(raw[i]))
        } else {
            Seq::new(
                raw.len(),
                |i: int|
                    if i < raw.len() - 1 {
                        spec_strip_cr(raw[i])
                    } else {
                        raw[i]
                    },
            )
        }
    }
}

/// Split a text on line feeds.
fn split_nl(s: &str) -> (r: Vec<String>)
    ensures
        r.deep_view() == spec_split_nl(s@),
{
    let n = s.unicode_len();
    let mut out: Vec<String> = Vec::new();
    proof {
        assert(s@.skip(0) =~= s@);
        assert(out.deep_view() =~= Seq::<Seq<char>>::empty());
        assert(out.deep_view() + spec_split_nl(s@) =~= spec_split_nl(s@));
    }
    let mut start: usize = 0;
    let mut i: usize = 0;
    while i < n
        invariant
            n == s@.len(),
            start <= i <= n,
            forall|j: int| start <= j < i ==> s@[j] != '\n',
            spec_split_nl(s@) == out.deep_view() + spec_split_nl(s@.skip(start as int)),
        decreases n - i,
    {
        if s.get_char(i) == '\n' {
            let ghost tail = s@.skip(start as int);
            proof {
                assert(forall|j: int| 0 <= j < tail.len() ==> tail[j] == s@[j + start]);
                lemma_first_nl(tail);
                match spec_first_nl(tail) {
                    Some(fi) => {
                        assert(tail[i - start] == '\n');
                        assert(fi == i - start) by {
                            if fi < i - start {
                                assert(s@[fi + start] == '\n');
                            }
                        }
                        assert(tail.take(fi) =~= s@.subrange(start as int, i as int));
                        assert(tail.skip(fi + 1) =~= s@.skip(i + 1));
                    },
                    None => {
                        assert(tail[i - start] == '\n');
                    },
                }
            }
            let seg = String::from_str(s.substring_char(start, i));
            let ghost dv = out.deep_view();
            out.push(seg);
            proof {
                assert(out.deep_view() =~= dv.push(s@.subrange(start as int, i as int)));
                assert(dv + (seq![s@.subrange(start as int, i as int)] + spec_split_nl(
                    s@.skip(i + 1),
                )) =~= out.deep_view() + spec_split_nl(s@.skip(i + 1)));
            }
            start = i + 1;
        }
        i = i + 1;
    }
    let ghost tail = s@.skip(start as int);
    proof {
        assert(forall|j: int| 0 <= j < tail.len() ==> tail[j] == s@[j + start]);
        lemma_first_nl(tail);
        match spec_first_nl(tail) {
            Some(fi) => {
                assert(s@[fi + start] == '\n');
            },
            None => {},
        }
        assert(tail =~= s@.subrange(start as int, n as int));
    }
    let seg = String::from_str(s.substring_char(start, n));
    let ghost dv = out.deep_view();
    out.push(seg);
    proof {
        assert(out.deep_view() =~= dv.push(tail));
        assert(dv + seq![tail] =~= out.deep_view());
    }
    out
}

/// The lines of a text, as `str::lines` reads them.
pub fn lines_of(s: &str) -> (r: Vec<String>)
    ensures
        r.deep_view() == spec_lines(s@),
{
    let n = s.unicode_len();
    if n == 0 {
        let out: Vec<String> = Vec::new();
        proof {
            assert(out.deep_view() =~= Seq::<Seq<char>>::empty());
        }
        return out;
    }
    let raw = split_nl(s);
    let ghost rawv = raw.deep_view();
    proof {
        assert(spec_split_nl(s@).len() >= 1);
        assert(rawv.len() == raw@.len());
    }
    let ends_nl = s.get_char(n - 1) == '\n';
    let m: usize = if ends_nl {
        raw.len() - 1
    } else {
        raw.len()
    };
    let mut out: Vec<String> = Vec::new();
    let mut k: usize = 0;
    while k < m
        invariant
            rawv == raw.deep_view(),
            rawv.len() == raw@.len(),
            forall|i: int| 0 <= i < raw@.len() ==> rawv[i] == raw@[i]@,
            m <= raw@.len(),
            k <= m,
            out@.len() == k,
            forall|i: int|
                0 <= i < k ==> out@[i]@ == (if i < raw@.len() - 1 {
                    spec_strip_cr(rawv[i])
                } else {
                    rawv[i]
                }),
        decreases m - k,
    {
        let t = &raw[k];
        let tn = t.as_str().unicode_len();
        let stripped: String = if k + 1 < raw.len() && tn > 0 && t.as_str().get_char(tn - 1)
            == '\r' {
            let cut = String::from_str(t.as_str().substring_char(0, tn - 1));
            proof {
                assert(cut@ =~= spec_strip_cr(rawv[k as int]));
            }
            cut
        } else {
            proof {
                if k + 1 < raw@.len() {
                    assert(spec_strip_cr(rawv[k as int]) == rawv[k as int]);
                }
            }
            t.clone()
        };
        out.push(stripped);
        k = k + 1;
    }
    proof {
        assert(out.deep_view() =~= spec_lines(s@));
    }
    out
}

/// How many distinct strings of `a` are not in `b`.
fn distinct_minus_count(a: &Vec<String>, b: &Vec<String>) -> (r: usize)
    ensures
        r == a.deep_view().to_set().difference(b.deep_view().to_set()).len(),
{
    broadcast use vstd::seq_lib::seq_to_set_is_finite;

    proof {
        crate::fs::lemma_str_set_members(a@);
        crate::fs::lemma_str_set_members(b@);
    }
    let mut out: Vec<String> = Vec::new();
    let mut k: usize = 0;
    while k < a.len()
        invariant
            k <= a@.len(),
            forall|i: int, j: int| 0 <= i < j < out@.len() ==> out@[i]@ != out@[j]@,
            forall|x: Seq<char>|
                #[trigger] crate::fs::str_set(out@).contains(x) <==> ((exists|i: int|
                    0 <= i < k && a@[i]@ == x) && !crate::fs::str_set(b@).contains(x)),
        decreases a@.len() - k,
    {
        proof {
            crate::fs::lemma_str_set_members(out@);
        }
        if !crate::fs::contains_str(b, a[k].as_str()) && !crate::fs::contains_str(
            &out,
            a[k].as_str(),
        ) {
            let ghost before = out@;
            proof {
                crate::fs::lemma_str_set_members(before);
            }
            out.push(a[k].clone());
            proof {
                crate::fs::lemma_str_set_push(before, a@[k as int]);
                assert forall|i: int, j: int|
                    0 <= i < j < out@.len() implies out@[i]@ != out@[j]@ by {
                    if j == before.len() {
                        assert(out@[i] == before[i]);
                        if before[i]@ == a@[k as int]@ {
                            assert(crate::fs::str_set(before).contains(a@[k as int]@));
                        }
                    }
                }
            }
        }
        k = k + 1;
    }
    proof {
        let av = a.deep_view();
        let bv = b.deep_view();
        assert(a@.map_values(|s: String| s@) =~= av);
        assert(b@.map_values(|s: String| s@) =~= bv);
        assert(crate::fs::str_set(a@) == av.to_set());
        assert(crate::fs::str_set(b@) == bv.to_set());
        assert forall|x: Seq<char>| #[trigger] crate::fs::str_set(out@).contains(x) implies
            av.to_set().difference(bv.to_set()).contains(x) by {
            let i = choose|i: int| 0 <= i < a@.len() && a@[i]@ == x;
            assert(av[i] == x);
            assert(av.contains(x));
        }
        assert forall|x: Seq<char>|
            av.to_set().difference(bv.to_set()).contains(x) implies #[trigger] crate::fs::str_set(
            out@,
        ).contains(x) by {
            assert(av.contains(x));
            let i = choose|i: int| 0 <= i < av.len() && av[i] == x;
            assert(a@[i]@ == x);
        }
        assert(crate::fs::str_set(out@) =~= av.to_set().difference(bv.to_set()));
        let mapped = out@.map_values(|s: String| s@);
        assert(mapped =~= out.deep_view());
        assert(mapped.no_duplicates()) by {
            assert(forall|i: int|
                0 <= i < out@.len() ==> mapped[i] == out@[i]@);
        }
        mapped.unique_seq_to_set();
        assert(crate::fs::str_set(out@) == mapped.to_set());
        assert(mapped.len() == out@.len());
    }
    out.len()
}

/// Line-set and byte-length change statistics between two revisions:
/// the distinct lines added and removed, and the growth or shrinkage of
/// the text in bytes.
pub fn compute_diff_stats(old: &str, new: &str) -> (r: ChangeStats)
    ensures
        r.lines_added == spec_lines(new@).to_set().difference(spec_lines(old@).to_set()).len(),
        r.lines_removed == spec_lines(old@).to_set().difference(
            spec_lines(new@).to_set(),
        ).len(),
        r.chars_added == (if new.spec_bytes().len() as usize > old.spec_bytes().len() as usize {
            new.spec_bytes().len() as usize - old.spec_bytes().len() as usize
        } else {
            0
        }),
        r.chars_removed == (if old.spec_bytes().len() as usize > new.spec_bytes().len() as usize {
            old.spec_bytes().len() as usize - new.spec_bytes().len() as usize
        } else {
            0
        }),
{
    let old_lines = lines_of(old);
    let new_lines = lines_of(new);
    let lines_added = distinct_minus_count(&new_lines, &old_lines);
    let lines_removed = distinct_minus_count(&old_lines, &new_lines);
    let nl = new.len();
    let ol = old.len();
    let chars_added: usize = if nl > ol {
        nl - ol
    } else {
        0
    };
    let chars_removed: usize = if ol > nl {
        ol - nl
    } else {
        0
    };
    ChangeStats { lines_added, lines_removed, chars_added, chars_removed }
}

}
