use vstd::prelude::*;
use vstd::string::{StrSliceExecFns, StringExecFns};

verus! {

/// The recognized difficulty names, in their canonical order.
pub const DEFAULT_DIFFICULTIES: [&'static str; 3] = ["easy", "medium", "hard"];

pub open spec fn difficulty_names() -> Seq<Seq<char>> {
    seq!["easy"@, "medium"@, "hard"@]
}

/// One entry of a difficulty's catalog (`levels.toml`).
#[derive(Debug)]
pub struct LevelMeta {
    pub id: Option<String>,
    pub file: Option<String>,
    pub author: Option<String>,
    pub solved: Option<bool>,
    pub difficulty: Option<String>,
    pub tags: Option<Vec<String>>,
    pub description: Option<String>,
}

/// A difficulty's catalog: its list of entries.
#[derive(Debug)]
pub struct LevelsToml {
    pub level: Vec<LevelMeta>,
}

/// Whether the entry refers to the level file named `name`.
pub open spec fn refers_to(m: LevelMeta, name: Seq<char>) -> bool {
    match m.file {
        Some(f) => f@ == name,
        None => false,
    }
}

/// Whether the entries `e` and `f` agree on everything but the solved flag.
pub open spec fn same_but_solved(e: LevelMeta, f: LevelMeta) -> bool {
    &&& e.id == f.id
    &&& e.file == f.file
    &&& e.author == f.author
    &&& e.difficulty == f.difficulty
    &&& e.tags == f.tags
    &&& e.description == f.description
}

/// Whether two strings hold the same characters.
pub fn same_text(a: &str, b: &str) -> (r: bool)
    ensures
        r == (a@ == b@),
{
    let x = String::from_str(a);
    let y = String::from_str(b);
    x == y
}

impl LevelsToml {
    /// Sets the solved flag of the first entry whose `file` is `file_name`; entries are never
    /// added. Returns whether an entry was found.
    pub fn set_solved_for_file(&mut self, file_name: &str, solved: bool) -> (found: bool)
        ensures
            found == exists|i: int| 0 <= i < old(self).level.len() && refers_to(
                #[trigger] old(self).level[i],
                file_name@,
            ),
            !found ==> final(self).level@ == old(self).level@,
            found ==> exists|i: int|
                0 <= i < old(self).level.len() && refers_to(#[trigger] old(self).level[i], file_name@)
                    && (forall|j: int| 0 <= j < i ==> !refers_to(#[trigger] old(self).level[j], file_name@))
                    && final(self).level.len() == old(self).level.len()
                    && (forall|j: int|
                    0 <= j < old(self).level.len() && j != i ==> #[trigger] final(self).level[j]
                        == old(self).level[j])
                    && same_but_solved(final(self).level[i], old(self).level[i])
                    && final(self).level[i].solved == Some(solved),
    {
        let n = self.level.len();
        let mut i: usize = 0;
        while i < n
            invariant
                n == self.level.len(),
                self.level@ == old(self).level@,
                i <= n,
                forall|j: int| 0 <= j < i ==> !refers_to(#[trigger] self.level[j], file_name@),
            decreases n - i,
        {
            let hit = match &self.level[i].file {
                Some(f) => same_text(f.as_str(), file_name),
                None => false,
            };
            if hit {
                let mut entry = self.level.remove(i);
                entry.solved = Some(solved);
                self.level.insert(i, entry);
                assert(refers_to(old(self).level[i as int], file_name@));
                assert(forall|j: int|
                    0 <= j < old(self).level.len() && j != i ==> #[trigger] self.level[j]
                        == old(self).level[j]);
                return true;
            }
            i = i + 1;
        }
        false
    }
}

} // verus!
