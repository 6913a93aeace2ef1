use vstd::prelude::*;
use crate::playback::{lowercase_text, lowercased, trim_text, trimmed};

verus! {

/// The difficulty names of a profiling run: each trimmed and lowercased, empty ones dropped,
/// repeats dropped, in the order first given.
pub open spec fn normalized_difficulties(raw: Seq<Seq<char>>) -> Seq<Seq<char>>
    decreases raw.len(),
{
    if raw.len() == 0 {
        Seq::empty()
    } else {
        let rest = normalized_difficulties(raw.drop_last());
        let t = lowercased(trimmed(raw.last()));
        if t.len() > 0 && !rest.contains(t) {
            rest.push(t)
        } else {
            rest
        }
    }
}

fn contains_text(v: &Vec<String>, t: &String) -> (r: bool)
    ensures
        r == v.deep_view().contains(t@),
{
    let n = v.len();
    let mut i: usize = 0;
    while i < n
        invariant
            n == v.len(),
            i <= n,
            forall|k: int| 0 <= k < i ==> v.deep_view()[k] != t@,
        decreases n - i,
    {
        if v[i] == *t {
            assert(v.deep_view()[i as int] == t@);
            return true;
        }
        i = i + 1;
    }
    false
}

/// Trims and lowercases the difficulty names, dropping empty and repeated ones; the first
/// occurrence keeps its place.
pub fn normalize_difficulties(raw: &Vec<String>) -> (r: Vec<String>)
    ensures
        r.deep_view() == normalized_difficulties(raw.deep_view()),
{
    let mut out: Vec<String> = Vec::new();
    let n = raw.len();
    let mut i: usize = 0;
    assert(raw.deep_view().subrange(0, 0) =~= Seq::<Seq<char>>::empty());
    while i < n
        invariant
            n == raw.len(),
            i <= n,
            out.deep_view() == normalized_difficulties(raw.deep_view().subrange(0, i as int)),
        decreases n - i,
    {
        proof {
            assert(raw.deep_view().subrange(0, i as int + 1).drop_last() =~= raw.deep_view().subrange(
                0,
                i as int,
            ));
        }
        let t = trim_text(raw[i].as_str());
        let l = lowercase_text(t.as_str());
        if l.as_str().unicode_len() > 0 && !contains_text(&out, &l) {
            let ghost before = out.deep_view();
            out.push(l);
            assert(out.deep_view() =~= before.push(lowercased(trimmed(raw.deep_view()[i as int]))));
        }
        i = i + 1;
    }
    assert(raw.deep_view().subrange(0, n as int) =~= raw.deep_view());
    out
}

/// Timing figures of one level over a profiling run; durations in nanoseconds.
#[derive(Debug, Clone, Copy, PartialEq, Eq, Structural, Default)]
pub struct LevelStats {
    pub total_nanos: u128,
    pub min_nanos: Option<u128>,
    pub max_nanos: Option<u128>,
    pub solves: usize,
    pub total_moves: usize,
}

impl LevelStats {
    /// Adds one solve that took `elapsed_nanos` and found `moves` moves.
    pub fn record(&mut self, elapsed_nanos: u128, moves: usize)
        requires
            old(self).total_nanos + elapsed_nanos <= u128::MAX,
            old(self).solves < usize::MAX,
            old(self).total_moves + moves <= usize::MAX,
        ensures
            final(self).total_nanos == old(self).total_nanos + elapsed_nanos,
            final(self).solves == old(self).solves + 1,
            final(self).total_moves == old(self).total_moves + moves,
            final(self).min_nanos == Some(
                match old(self).min_nanos {
                    Some(m) => if elapsed_nanos < m {
                        elapsed_nanos
                    } else {
                        m
                    },
                    None => elapsed_nanos,
                },
            ),
            final(self).max_nanos == Some(
                match old(self).max_nanos {
                    Some(m) => if elapsed_nanos > m {
                        elapsed_nanos
                    } else {
                        m
                    },
                    None => elapsed_nanos,
                },
            ),
    {
        self.total_nanos = self.total_nanos + elapsed_nanos;
        self.solves = self.solves + 1;
        self.total_moves = self.total_moves + moves;
        self.min_nanos = Some(
            match self.min_nanos {
                Some(m) => if elapsed_nanos < m {
                    elapsed_nanos
                } else {
                    m
                },
                None => elapsed_nanos,
            },
        );
        self.max_nanos = Some(
            match self.max_nanos {
                Some(m) => if elapsed_nanos > m {
                    elapsed_nanos
                } else {
                    m
                },
                None => elapsed_nanos,
            },
        );
    }
}

} // verus!
