use vstd::prelude::*;
use vstd::seq_lib::*;
use vstd::string::StringExecFns;
use crate::levels::{LevelMeta, LevelsToml};
use crate::text::{lex_le, text_le, lemma_lex_antisym, lemma_lex_total, lemma_lex_trans};

verus! {

broadcast use {vstd::seq_lib::group_to_multiset_ensures, vstd::multiset::group_multiset_axioms};

/// What a scan of a difficulty directory found for one `*.json` level file.
#[derive(Debug)]
pub struct LevelFile {
    /// The file name without its extension; it becomes the catalog entry's id.
    pub stem: String,
    /// The file name, relative to the difficulty directory.
    pub file_name: String,
    /// The level's `name` field.
    pub name: String,
}

/// Whether the files are in ascending order of their stems.
pub open spec fn stem_sorted(s: Seq<LevelFile>) -> bool {
    forall|i: int, j: int| 0 <= i < j < s.len() ==> lex_le(#[trigger] s[i].stem@, #[trigger] s[j].stem@)
}

/// Whether `m` is the catalog entry that the generator writes for the file `f` of difficulty `d`.
pub open spec fn is_generated_entry(m: LevelMeta, f: LevelFile, d: Seq<char>) -> bool {
    &&& m.id == Some(f.stem)
    &&& m.file == Some(f.file_name)
    &&& (m.author matches Some(a) && a@ == "gsnake"@)
    &&& m.solved == Some(true)
    &&& (m.difficulty matches Some(x) && x@ == d)
    &&& (m.tags matches Some(t) && t@.len() == 0)
    &&& m.description == Some(f.name)
}

/// Orders the files by stem; files with equal stems keep their relative order.
pub fn sort_level_files(files: Vec<LevelFile>) -> (r: Vec<LevelFile>)
    ensures
        stem_sorted(r@),
        r@.to_multiset() == files@.to_multiset(),
{
    let mut rest = files;
    let mut sorted: Vec<LevelFile> = Vec::new();
    while rest.len() > 0
        invariant
            stem_sorted(sorted@),
            sorted@.to_multiset().add(rest@.to_multiset()) == files@.to_multiset(),
        decreases rest.len(),
    {
        let ghost before = rest@;
        let f = rest.pop().unwrap();
        proof {
            assert(rest@ =~= before.remove(before.len() - 1));
        }
        let n = sorted.len();
        let mut j: usize = 0;
        while j < n && !text_le(f.stem.as_str(), sorted[j].stem.as_str())
            invariant
                n == sorted.len(),
                j <= n,
                forall|k: int| 0 <= k < j ==> lex_le(#[trigger] sorted[k].stem@, f.stem@),
            decreases n - j,
        {
            proof {
                lemma_lex_total(f.stem@, sorted[j as int].stem@);
            }
            j = j + 1;
        }
        let ghost s0 = sorted@;
        proof {
            if j < n {
                assert(lex_le(f.stem@, s0[j as int].stem@));
                assert forall|k: int| j <= k < n implies lex_le(f.stem@, #[trigger] s0[k].stem@) by {
                    if k > j {
                        lemma_lex_trans(f.stem@, s0[j as int].stem@, s0[k].stem@);
                    }
                }
            }
        }
        sorted.insert(j, f);
        proof {
            assert(sorted@ =~= s0.insert(j as int, f));
            assert forall|a: int, b: int| 0 <= a < b < sorted@.len() implies lex_le(
                #[trigger] sorted@[a].stem@,
                #[trigger] sorted@[b].stem@,
            ) by {
                if a < j && b > j {
                    lemma_lex_trans(s0[a].stem@, f.stem@, s0[b - 1].stem@);
                }
            }
        }
    }
    sorted
}

/// The catalog of one difficulty: an entry per level file, in ascending order of id.
/// Whether `entries` is the catalog the generator writes for `files` of difficulty `d`: one
/// generated entry per file, in ascending order of stem.
pub open spec fn is_catalog_of(files: Seq<LevelFile>, d: Seq<char>, entries: Seq<LevelMeta>) -> bool {
    exists|sorted: Seq<LevelFile>|
        {
            &&& sorted.to_multiset() == files.to_multiset()
            &&& stem_sorted(sorted)
            &&& sorted.len() == entries.len()
            &&& forall|i: int|
                0 <= i < sorted.len() ==> is_generated_entry(#[trigger] entries[i], sorted[i], d)
        }
}

pub fn build_levels_toml(files: Vec<LevelFile>, difficulty: &str) -> (r: LevelsToml)
    ensures
        is_catalog_of(files@, difficulty@, r.level@),
{
    let sorted = sort_level_files(files);
    let n = sorted.len();
    let mut level: Vec<LevelMeta> = Vec::new();
    let mut i: usize = 0;
    while i < n
        invariant
            n == sorted.len(),
            i <= n,
            level.len() == i,
            forall|k: int| 0 <= k < i ==> is_generated_entry(#[trigger] level[k], sorted[k], difficulty@),
        decreases n - i,
    {
        let f = &sorted[i];
        let meta = LevelMeta {
            id: Some(f.stem.clone()),
            file: Some(f.file_name.clone()),
            author: Some(String::from_str("gsnake")),
            solved: Some(true),
            difficulty: Some(String::from_str(difficulty)),
            tags: Some(Vec::new()),
            description: Some(f.name.clone()),
        };
        level.push(meta);
        i = i + 1;
    }
    let r = LevelsToml { level };
    assert(forall|i: int| 0 <= i < sorted@.len() ==> is_generated_entry(#[trigger] r.level@[i], sorted@[i], difficulty@));
    r
}

/// Whether no two files share a stem, as no two files of one directory do.
pub open spec fn distinct_stems(s: Seq<LevelFile>) -> bool {
    forall|i: int, j: int| 0 <= i < j < s.len() ==> (#[trigger] s[i]).stem@ != (#[trigger] s[j]).stem@
}

/// The catalog does not depend on the order in which the directory was scanned: two sorted
/// arrangements of the same files (with distinct stems) are the same sequence, so building
/// the catalog twice from one directory gives the same entries.
pub proof fn lemma_catalog_order_is_determined(x: Seq<LevelFile>, y: Seq<LevelFile>)
    requires
        stem_sorted(x),
        stem_sorted(y),
        distinct_stems(x),
        x.to_multiset() == y.to_multiset(),
    ensures
        x == y,
    decreases x.len(),
{
    assert(x.len() == y.len()) by {
        assert(x.to_multiset().len() == x.len());
        assert(y.to_multiset().len() == y.len());
    }
    if x.len() == 0 {
        assert(x =~= y);
    } else {
        assert(x.to_multiset().contains(x[0]));
        assert(y.to_multiset().contains(y[0]));
        assert(x.contains(y[0]));
        assert(y.contains(x[0]));
        let i = choose|i: int| 0 <= i < x.len() && x[i] == y[0];
        let j = choose|j: int| 0 <= j < y.len() && y[j] == x[0];
        if i > 0 {
            assert(lex_le(x[0].stem@, x[i].stem@));
        }
        if j > 0 {
            assert(lex_le(y[0].stem@, y[j].stem@));
        }
        lemma_lex_total(x[0].stem@, x[0].stem@);
        lemma_lex_antisym(x[0].stem@, y[0].stem@);
        assert(i == 0);
        assert(x[0] == y[0]);
        vstd::seq_lib::to_multiset_remove(x, 0);
        vstd::seq_lib::to_multiset_remove(y, 0);
        assert(x.remove(0) =~= x.drop_first());
        assert(y.remove(0) =~= y.drop_first());
        assert(x.drop_first() =~= x.subrange(1, x.len() as int));
        lemma_catalog_order_is_determined(x.drop_first(), y.drop_first());
        assert(x =~= y) by {
            assert forall|k: int| 0 <= k < x.len() implies x[k] == y[k] by {
                if k > 0 {
                    assert(x[k] == x.drop_first()[k - 1]);
                    assert(y[k] == y.drop_first()[k - 1]);
                }
            }
        }
    }
}

proof fn lemma_distinct_stems_kept(x: Seq<LevelFile>, y: Seq<LevelFile>)
    requires
        distinct_stems(x),
        x.to_multiset() == y.to_multiset(),
    ensures
        distinct_stems(y),
{
    assert forall|i: int, j: int| 0 <= i < j < y.len() implies (#[trigger] y[i]).stem@ != (
    #[trigger] y[j]).stem@ by {
        if y[i].stem@ == y[j].stem@ {
            assert(y.to_multiset().contains(y[i]));
            assert(x.contains(y[i]));
            let p = choose|p: int| 0 <= p < x.len() && x[p] == y[i];
            if y[i] == y[j] {
                vstd::seq_lib::to_multiset_remove(y, i);
                vstd::seq_lib::to_multiset_remove(x, p);
                assert(y.remove(i)[j - 1] == y[j]);
                assert(y.remove(i).contains(y[j]));
                assert(y.remove(i).to_multiset().contains(y[j]));
                assert(x.remove(p).to_multiset() == y.remove(i).to_multiset());
                assert(x.remove(p).contains(y[j]));
                let q = choose|q: int| 0 <= q < x.remove(p).len() && x.remove(p)[q] == y[j];
                let r = if q < p { q } else { q + 1 };
                assert(x[r] == y[j]);
                if r < p {
                    assert(x[r].stem@ != x[p].stem@);
                } else {
                    assert(x[p].stem@ != x[r].stem@);
                }
            } else {
                assert(y.to_multiset().contains(y[j]));
                assert(x.contains(y[j]));
                let q = choose|q: int| 0 <= q < x.len() && x[q] == y[j];
                if p < q {
                    assert(x[p].stem@ != x[q].stem@);
                } else {
                    assert(x[q].stem@ != x[p].stem@);
                }
            }
        }
    }
}

/// Rebuilding a catalog from an unchanged directory gives the same entries, whatever order the
/// directory is scanned in: two catalogs built from the same files (whose stems are distinct,
/// as the stems of one directory's `*.json` files are) agree entry by entry.
pub proof fn lemma_rebuild_is_deterministic(
    f1: Seq<LevelFile>,
    f2: Seq<LevelFile>,
    d: Seq<char>,
    e1: Seq<LevelMeta>,
    e2: Seq<LevelMeta>,
)
    requires
        f1.to_multiset() == f2.to_multiset(),
        distinct_stems(f1),
        is_catalog_of(f1, d, e1),
        is_catalog_of(f2, d, e2),
    ensures
        e1.len() == e2.len(),
        forall|i: int|
            0 <= i < e1.len() ==> {
                &&& (#[trigger] e1[i]).id == e2[i].id
                &&& e1[i].file == e2[i].file
                &&& e1[i].description == e2[i].description
                &&& e1[i].solved == e2[i].solved
                &&& e1[i].author->0@ == e2[i].author->0@
                &&& e1[i].difficulty->0@ == e2[i].difficulty->0@
                &&& e1[i].tags->0@.len() == 0 && e2[i].tags->0@.len() == 0
            },
{
    let s1 = choose|sorted: Seq<LevelFile>|
        {
            &&& sorted.to_multiset() == f1.to_multiset()
            &&& stem_sorted(sorted)
            &&& sorted.len() == e1.len()
            &&& forall|i: int|
                0 <= i < sorted.len() ==> is_generated_entry(#[trigger] e1[i], sorted[i], d)
        };
    let s2 = choose|sorted: Seq<LevelFile>|
        {
            &&& sorted.to_multiset() == f2.to_multiset()
            &&& stem_sorted(sorted)
            &&& sorted.len() == e2.len()
            &&& forall|i: int|
                0 <= i < sorted.len() ==> is_generated_entry(#[trigger] e2[i], sorted[i], d)
        };
    lemma_distinct_stems_kept(f1, s1);
    lemma_catalog_order_is_determined(s1, s2);
    assert forall|i: int| 0 <= i < e1.len() implies {
        &&& (#[trigger] e1[i]).id == e2[i].id
        &&& e1[i].file == e2[i].file
        &&& e1[i].description == e2[i].description
        &&& e1[i].solved == e2[i].solved
        &&& e1[i].author->0@ == e2[i].author->0@
        &&& e1[i].difficulty->0@ == e2[i].difficulty->0@
        &&& e1[i].tags->0@.len() == 0 && e2[i].tags->0@.len() == 0
    } by {
        assert(is_generated_entry(e1[i], s1[i], d));
        assert(is_generated_entry(e2[i], s2[i], d));
    }
}

} // verus!
