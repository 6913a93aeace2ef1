use vstd::prelude::*;
use vstd::string::{StrSliceExecFns, StringExecFns};
use crate::levels::same_text;
use crate::text::{split_chars, split_on, lemma_split_on_nonempty};

verus! {

/// The parts between separators that name something: neither empty nor `.`.
pub open spec fn named_parts(parts: Seq<Seq<char>>) -> Seq<Seq<char>>
    decreases parts.len(),
{
    if parts.len() == 0 {
        parts
    } else {
        let rest = named_parts(parts.drop_last());
        if parts.last().len() > 0 && parts.last() != "."@ {
            rest.push(parts.last())
        } else {
            rest
        }
    }
}

/// The components of a path, as `std::path::Path::components` gives them on Unix: `/` for the
/// root, `.` only at the start of a relative path, and no empty or other `.` parts.
pub open spec fn path_components(p: Seq<char>) -> Seq<Seq<char>> {
    let parts = split_on(p, '/');
    let head: Seq<Seq<char>> = if p.len() > 0 && p[0] == '/' {
        seq!["/"@]
    } else if parts[0] == "."@ {
        seq!["."@]
    } else {
        Seq::empty()
    };
    head + named_parts(parts)
}

/// A path built by pushing the components one after the other, as `PathBuf::push` does.
pub open spec fn join_path(cs: Seq<Seq<char>>) -> Seq<char>
    decreases cs.len(),
{
    if cs.len() == 0 {
        Seq::empty()
    } else {
        let prev = join_path(cs.drop_last());
        if prev.len() == 0 {
            cs.last()
        } else if prev.last() == '/' {
            prev + cs.last()
        } else {
            prev + "/"@ + cs.last()
        }
    }
}

/// The components of a path.
pub fn components(p: &str) -> (r: Vec<String>)
    ensures
        r.deep_view() == path_components(p@),
{
    let parts = split_chars(p, '/');
    proof {
        lemma_split_on_nonempty(p@, '/');
    }
    let mut r: Vec<String> = Vec::new();
    let n = p.unicode_len();
    if n > 0 && p.get_char(0) == '/' {
        r.push(String::from_str("/"));
    } else if same_text(parts[0].as_str(), ".") {
        r.push(String::from_str("."));
    }
    let ghost head = r.deep_view();
    assert(head.len() <= 1);
    let ghost dv = parts.deep_view();
    proof {
        if n > 0 && p@[0] == '/' {
            assert(head =~= seq!["/"@]);
        } else if dv[0] == "."@ {
            assert(head =~= seq!["."@]);
        } else {
            assert(head =~= Seq::<Seq<char>>::empty());
        }
    }
    let m = parts.len();
    let mut i: usize = 0;
    assert(named_parts(dv.subrange(0, 0)) =~= Seq::<Seq<char>>::empty());
    assert(r.deep_view() =~= head + named_parts(dv.subrange(0, 0)));
    while i < m
        invariant
            m == parts.len(),
            dv == parts.deep_view(),
            i <= m,
            r.deep_view() == head + named_parts(dv.subrange(0, i as int)),
        decreases m - i,
    {
        proof {
            assert(dv.subrange(0, i as int + 1).drop_last() =~= dv.subrange(0, i as int));
        }
        let part = &parts[i];
        if part.as_str().unicode_len() > 0 && !same_text(part.as_str(), ".") {
            let ghost before = r.deep_view();
            r.push(part.clone());
            proof {
                assert(r.deep_view() =~= before.push(dv[i as int]));
            }
        }
        i = i + 1;
    }
    assert(dv.subrange(0, m as int) =~= dv);
    r
}

/// Joins path components back into a path.
pub fn join_components(cs: &Vec<String>) -> (r: String)
    ensures
        r@ == join_path(cs.deep_view()),
{
    let n = cs.len();
    let mut s = String::new();
    let mut i: usize = 0;
    assert(cs.deep_view().subrange(0, 0) =~= Seq::<Seq<char>>::empty());
    while i < n
        invariant
            n == cs.len(),
            i <= n,
            s@ == join_path(cs.deep_view().subrange(0, i as int)),
        decreases n - i,
    {
        proof {
            assert(cs.deep_view().subrange(0, i as int + 1).drop_last() =~= cs.deep_view().subrange(
                0,
                i as int,
            ));
        }
        let len = s.as_str().unicode_len();
        if len == 0 {
            s = cs[i].clone();
        } else if s.as_str().get_char(len - 1) == '/' {
            s = s.concat(cs[i].as_str());
        } else {
            s = s.concat("/");
            s = s.concat(cs[i].as_str());
        }
        i = i + 1;
    }
    assert(cs.deep_view().subrange(0, n as int) =~= cs.deep_view());
    s
}

/// A path that could not be derived from another by the directory conventions.
#[derive(Debug)]
pub enum PathError {
    /// No component of the level path is `levels`.
    NoLevelsComponent { path: String },
    /// The level path is not under the levels root.
    NotUnderRoot { path: String, root: String },
}

/// Whether `i` is the first position of `x` in `cs`.
pub open spec fn is_first_index(cs: Seq<Seq<char>>, x: Seq<char>, i: int) -> bool {
    0 <= i < cs.len() && cs[i] == x && forall|j: int| 0 <= j < i ==> cs[j] != x
}

/// The position of the first component equal to `x`, if any.
fn first_index(cs: &Vec<String>, x: &str) -> (r: Option<usize>)
    ensures
        match r {
            Some(i) => is_first_index(cs.deep_view(), x@, i as int),
            None => forall|j: int| 0 <= j < cs.len() ==> cs.deep_view()[j] != x@,
        },
{
    let n = cs.len();
    let mut i: usize = 0;
    while i < n
        invariant
            n == cs.len(),
            i <= n,
            forall|j: int| 0 <= j < i ==> cs.deep_view()[j] != x@,
        decreases n - i,
    {
        if same_text(cs[i].as_str(), x) {
            return Some(i);
        }
        i = i + 1;
    }
    None
}

/// `cs` with its component at `i` replaced by `x`.
fn replace_component(cs: Vec<String>, i: usize, x: &str) -> (r: Vec<String>)
    requires
        i < cs.len(),
    ensures
        r.deep_view() == cs.deep_view().update(i as int, x@),
{
    let mut cs = cs;
    let ghost before = cs.deep_view();
    cs.remove(i);
    cs.insert(i, String::from_str(x));
    assert(cs.deep_view() =~= before.update(i as int, x@));
    cs
}

/// Where a level's playback lives: the explicit override if one is given, else the level path
/// with its first `levels` component replaced by `playbacks`.
pub fn resolve_playback_path(level_path: &str, override_path: Option<String>) -> (r: Result<
    String,
    PathError,
>)
    ensures
        ({
            let cs = path_components(level_path@);
            match override_path {
                Some(p) => r == Ok::<String, PathError>(p),
                None => match r {
                    Ok(p) => exists|i: int|
                        is_first_index(cs, "levels"@, i) && p@ == join_path(
                            cs.update(i, "playbacks"@),
                        ),
                    Err(e) => (forall|j: int| 0 <= j < cs.len() ==> cs[j] != "levels"@) && (
                    e matches PathError::NoLevelsComponent { path } && path@ == level_path@),
                },
            }
        }),
{
    if let Some(p) = override_path {
        return Ok(p);
    }
    let cs = components(level_path);
    match first_index(&cs, "levels") {
        Some(i) => {
            let replaced = replace_component(cs, i, "playbacks");
            Ok(join_components(&replaced))
        },
        None => Err(PathError::NoLevelsComponent { path: String::from_str(level_path) }),
    }
}

} // verus!

verus! {

/// The components of the parent directory, as `Path::parent` gives it: none for an empty path
/// or the root.
pub open spec fn parent_components(cs: Seq<Seq<char>>) -> Option<Seq<Seq<char>>> {
    if cs.len() == 0 || cs.last() == "/"@ {
        None
    } else {
        Some(cs.drop_last())
    }
}

fn parent_of(cs: &Vec<String>) -> (r: Option<Vec<String>>)
    ensures
        match r {
            Some(p) => parent_components(cs.deep_view()) == Some(p.deep_view()),
            None => parent_components(cs.deep_view()) is None,
        },
{
    let n = cs.len();
    if n == 0 || same_text(cs[n - 1].as_str(), "/") {
        return None;
    }
    let mut p: Vec<String> = Vec::new();
    let mut i: usize = 0;
    while i < n - 1
        invariant
            n == cs.len(),
            n > 0,
            i <= n - 1,
            p.deep_view() == cs.deep_view().subrange(0, i as int),
        decreases n - i,
    {
        let ghost before = p.deep_view();
        let c = cs[i].clone();
        assert(c@ == cs.deep_view()[i as int]);
        p.push(c);
        assert(p.deep_view() =~= before.push(cs.deep_view()[i as int]));
        assert(p.deep_view() =~= cs.deep_view().subrange(0, i as int + 1));
        i = i + 1;
    }
    assert(p.deep_view() =~= cs.deep_view().drop_last());
    Some(p)
}

fn pushed(cs: Vec<String>, x: &str) -> (r: Vec<String>)
    ensures
        r.deep_view() == cs.deep_view().push(x@),
{
    let mut cs = cs;
    let ghost before = cs.deep_view();
    cs.push(String::from_str(x));
    assert(cs.deep_view() =~= before.push(x@));
    cs
}

/// The catalog path of a level path.
pub open spec fn catalog_path_of(level_path: Seq<char>) -> Seq<char> {
    join_path(
        match parent_components(path_components(level_path)) {
            Some(p) => p,
            None => seq!["."@],
        }.push("levels.toml"@),
    )
}

/// The catalog that lists a level: `levels.toml` in the level file's directory (`.` when the
/// path has no parent).
pub fn levels_toml_path_for(level_path: &str) -> (r: String)
    ensures
        r@ == catalog_path_of(level_path@),
{
    let cs = components(level_path);
    let dir = match parent_of(&cs) {
        Some(p) => p,
        None => {
            let mut d: Vec<String> = Vec::new();
            d.push(String::from_str("."));
            assert(d.deep_view() =~= seq!["."@]);
            d
        },
    };
    join_components(&pushed(dir, "levels.toml"))
}

/// The mirrored playback of a level file found through a catalog: the level's place relative
/// to the levels root, re-rooted under `playbacks` next to the levels root (or under the root
/// itself when it has no parent).
pub fn infer_playback_path(levels_root: &str, level_path: &str) -> (r: Result<String, PathError>)
    ensures
        ({
            let rc = path_components(levels_root@);
            let lc = path_components(level_path@);
            let base = match parent_components(rc) {
                Some(p) => p,
                None => rc,
            };
            if rc.len() <= lc.len() && lc.subrange(0, rc.len() as int) == rc {
                r matches Ok(p) && p@ == join_path(
                    base.push("playbacks"@) + lc.subrange(rc.len() as int, lc.len() as int),
                )
            } else {
                r matches Err(PathError::NotUnderRoot { path, root }) && path@ == level_path@
                    && root@ == levels_root@
            }
        }),
{
    let rc = components(levels_root);
    let lc = components(level_path);
    let m = rc.len();
    let n = lc.len();
    let mut under = m <= n;
    let mut i: usize = 0;
    while under && i < m
        invariant
            m == rc.len(),
            n == lc.len(),
            under ==> m <= n,
            i <= m,
            under ==> forall|j: int| 0 <= j < i ==> rc.deep_view()[j] == lc.deep_view()[j],
            !under ==> !(m <= n && lc.deep_view().subrange(0, m as int) == rc.deep_view()),
        decreases m - i,
    {
        if !(rc[i] == lc[i]) {
            assert(lc.deep_view().subrange(0, m as int)[i as int] != rc.deep_view()[i as int]);
            under = false;
        }
        i = i + 1;
    }
    if !under {
        return Err(
            PathError::NotUnderRoot {
                path: String::from_str(level_path),
                root: String::from_str(levels_root),
            },
        );
    }
    assert(lc.deep_view().subrange(0, m as int) =~= rc.deep_view());
    let base = match parent_of(&rc) {
        Some(p) => p,
        None => rc,
    };
    let mut out = pushed(base, "playbacks");
    let ghost start = out.deep_view();
    let mut k: usize = m;
    while k < n
        invariant
            n == lc.len(),
            m <= k <= n,
            out.deep_view() == start + lc.deep_view().subrange(m as int, k as int),
        decreases n - k,
    {
        let ghost before = out.deep_view();
        let c = lc[k].clone();
        assert(c@ == lc.deep_view()[k as int]);
        out.push(c);
        assert(out.deep_view() =~= before.push(lc.deep_view()[k as int]));
        assert(out.deep_view() =~= start + lc.deep_view().subrange(m as int, k as int + 1));
        k = k + 1;
    }
    Ok(join_components(&out))
}

/// The position of the last `.` in a file name, or -1.
pub open spec fn last_dot(name: Seq<char>) -> int
    decreases name.len(),
{
    if name.len() == 0 {
        -1
    } else if name.last() == '.' {
        name.len() - 1
    } else {
        last_dot(name.drop_last())
    }
}

pub proof fn lemma_last_dot_range(name: Seq<char>)
    ensures
        -1 <= last_dot(name) < name.len(),
    decreases name.len(),
{
    if name.len() > 0 && name.last() != '.' {
        lemma_last_dot_range(name.drop_last());
    }
}

/// The stem of a file name, as `Path::file_stem` gives it: the part before the last `.`,
/// unless the name has no `.` or only a leading one.
pub open spec fn stem_of(name: Seq<char>) -> Seq<char> {
    if last_dot(name) > 0 {
        name.subrange(0, last_dot(name))
    } else {
        name
    }
}

/// The file name of a path, as `Path::file_name` gives it: its last component when that is
/// neither the root nor `.` nor `..`.
pub open spec fn file_name_of(cs: Seq<Seq<char>>) -> Option<Seq<char>> {
    if cs.len() == 0 || cs.last() == "/"@ || cs.last() == "."@ || cs.last() == ".."@ {
        None
    } else {
        Some(cs.last())
    }
}

fn stem(name: &str) -> (r: String)
    ensures
        r@ == stem_of(name@),
{
    let n = name.unicode_len();
    let mut i: usize = n;
    assert(name@.subrange(0, n as int) =~= name@);
    while i > 0 && name.get_char(i - 1) != '.'
        invariant
            n == name@.len(),
            i <= n,
            last_dot(name@) == last_dot(name@.subrange(0, i as int)),
        decreases i,
    {
        assert(name@.subrange(0, i as int).drop_last() =~= name@.subrange(0, i as int - 1));
        i = i - 1;
    }
    proof {
        assert(name@.subrange(0, n as int) =~= name@);
        if i > 0 {
            assert(name@.subrange(0, i as int).last() == '.');
        }
    }
    if i > 1 {
        String::from_str(name.substring_char(0, i - 1))
    } else {
        String::from_str(name)
    }
}

fn file_name_in(cs: &Vec<String>) -> (r: Option<String>)
    ensures
        match r {
            Some(f) => file_name_of(cs.deep_view()) == Some(f@),
            None => file_name_of(cs.deep_view()) is None,
        },
{
    let n = cs.len();
    if n == 0 {
        return None;
    }
    let last = &cs[n - 1];
    if same_text(last.as_str(), "/") || same_text(last.as_str(), ".") || same_text(last.as_str(), "..") {
        None
    } else {
        Some(last.clone())
    }
}

/// The stem of a path's file name, if it has one.
pub fn file_stem(path: &str) -> (r: Option<String>)
    ensures
        match r {
            Some(s) => file_name_of(path_components(path@)) matches Some(f) && s@ == stem_of(f),
            None => file_name_of(path_components(path@)) is None,
        },
{
    let cs = components(path);
    match file_name_in(&cs) {
        Some(f) => Some(stem(f.as_str())),
        None => None,
    }
}

/// The file name of a path, if it has one.
pub fn file_name(path: &str) -> (r: Option<String>)
    ensures
        match r {
            Some(s) => file_name_of(path_components(path@)) == Some(s@),
            None => file_name_of(path_components(path@)) is None,
        },
{
    let cs = components(path);
    file_name_in(&cs)
}

/// The components of a path whose file name's extension is replaced by `ext`, as
/// `Path::with_extension` does; a path without a file name is unchanged.
pub open spec fn with_extension_components(cs: Seq<Seq<char>>, ext: Seq<char>) -> Seq<Seq<char>> {
    match file_name_of(cs) {
        Some(f) => cs.drop_last().push(stem_of(f) + "."@ + ext),
        None => cs,
    }
}

fn with_extension_in(cs: Vec<String>, ext: &str) -> (r: Vec<String>)
    ensures
        r.deep_view() == with_extension_components(cs.deep_view(), ext@),
{
    match file_name_in(&cs) {
        Some(f) => {
            let mut cs = cs;
            let ghost before = cs.deep_view();
            cs.pop();
            let name = stem(f.as_str()).concat(".").concat(ext);
            cs.push(name);
            assert(cs.deep_view() =~= before.drop_last().push(stem_of(f@) + "."@ + ext@));
            cs
        },
        None => cs,
    }
}

/// The path with the extension of its file name replaced by `ext`.
pub fn with_extension(path: &str, ext: &str) -> (r: String)
    ensures
        r@ == join_path(with_extension_components(path_components(path@), ext@)),
{
    join_components(&with_extension_in(components(path), ext))
}

/// Where the SVG rendering of a playback goes: the playback path with its first `playbacks`
/// component replaced by `renders`, and the extension `svg`.
pub fn infer_svg_path(playback: &str) -> (r: String)
    ensures
        ({
            let cs = path_components(playback@);
            (forall|j: int| 0 <= j < cs.len() ==> cs[j] != "playbacks"@) ==> r@ == join_path(
                with_extension_components(cs, "svg"@),
            )
        }),
        ({
            let cs = path_components(playback@);
            forall|i: int| #[trigger]
                is_first_index(cs, "playbacks"@, i) ==> r@ == join_path(
                    with_extension_components(cs.update(i, "renders"@), "svg"@),
                )
        }),
{
    let cs = components(playback);
    let renamed = match first_index(&cs, "playbacks") {
        Some(i) => replace_component(cs, i, "renders"),
        None => cs,
    };
    join_components(&with_extension_in(renamed, "svg"))
}

} // verus!

verus! {

broadcast use {vstd::seq_lib::group_to_multiset_ensures, vstd::multiset::group_multiset_axioms};

/// The extension of a file name, as `Path::extension` gives it: the part after the last `.`,
/// unless the name has no `.` or only a leading one.
pub open spec fn extension_of(name: Seq<char>) -> Option<Seq<char>> {
    if last_dot(name) > 0 {
        Some(name.subrange(last_dot(name) + 1, name.len() as int))
    } else {
        None
    }
}

/// Whether the path names a file with the extension `json`.
pub open spec fn is_json_path(p: Seq<char>) -> bool {
    file_name_of(path_components(p)) matches Some(f) && extension_of(f) == Some("json"@)
}

pub open spec fn json_paths(s: Seq<String>) -> Seq<String> {
    s.filter(|p: String| is_json_path(p@))
}

/// Whether the path names a file with the extension `json`.
pub fn has_json_extension(path: &str) -> (r: bool)
    ensures
        r == is_json_path(path@),
{
    match file_name(path) {
        Some(f) => {
            let n = f.as_str().unicode_len();
            let mut i: usize = n;
            assert(f@.subrange(0, n as int) =~= f@);
            while i > 0 && f.as_str().get_char(i - 1) != '.'
                invariant
                    n == f@.len(),
                    i <= n,
                    last_dot(f@) == last_dot(f@.subrange(0, i as int)),
                decreases i,
            {
                assert(f@.subrange(0, i as int).drop_last() =~= f@.subrange(0, i as int - 1));
                i = i - 1;
            }
            proof {
                if i > 0 {
                    assert(f@.subrange(0, i as int).last() == '.');
                }
            }
            if i > 1 {
                same_text(f.as_str().substring_char(i, n), "json")
            } else {
                false
            }
        },
        None => false,
    }
}

/// Whether the paths are in ascending order.
pub open spec fn text_sorted(s: Seq<String>) -> bool {
    forall|i: int, j: int| 0 <= i < j < s.len() ==> crate::text::lex_le(#[trigger] s[i]@, #[trigger] s[j]@)
}

/// The paths that name `*.json` files, in ascending order.
pub fn select_level_files(paths: Vec<String>) -> (r: Vec<String>)
    ensures
        text_sorted(r@),
        r@.to_multiset() == json_paths(paths@).to_multiset(),
{
    let mut rest = paths;
    let mut sorted: Vec<String> = Vec::new();
    while rest.len() > 0
        invariant
            text_sorted(sorted@),
            sorted@.to_multiset().add(json_paths(rest@).to_multiset()) == json_paths(paths@).to_multiset(),
        decreases rest.len(),
    {
        let ghost before = rest@;
        let p = rest.pop().unwrap();
        proof {
            assert(rest@ =~= before.drop_last());
            reveal_with_fuel(Seq::<_>::filter, 1);
        }
        if has_json_extension(p.as_str()) {
            let n = sorted.len();
            let mut j: usize = 0;
            while j < n && !crate::text::text_le(p.as_str(), sorted[j].as_str())
                invariant
                    n == sorted.len(),
                    j <= n,
                    forall|k: int| 0 <= k < j ==> crate::text::lex_le(#[trigger] sorted[k]@, p@),
                decreases n - j,
            {
                proof {
                    crate::text::lemma_lex_total(p@, sorted[j as int]@);
                }
                j = j + 1;
            }
            let ghost s0 = sorted@;
            proof {
                if j < n {
                    assert forall|k: int| j <= k < n implies crate::text::lex_le(p@, #[trigger] s0[k]@) by {
                        if k > j {
                            crate::text::lemma_lex_trans(p@, s0[j as int]@, s0[k]@);
                        }
                    }
                }
            }
            sorted.insert(j, p);
            proof {
                assert(sorted@ =~= s0.insert(j as int, p));
                assert forall|a: int, b: int| 0 <= a < b < sorted@.len() implies crate::text::lex_le(
                    #[trigger] sorted@[a]@,
                    #[trigger] sorted@[b]@,
                ) by {
                    if a < j && b > j {
                        crate::text::lemma_lex_trans(s0[a]@, p@, s0[b - 1]@);
                    }
                }
            }
        }
    }
    proof {
        assert(json_paths(rest@) =~= Seq::<String>::empty()) by {
            reveal_with_fuel(Seq::<_>::filter, 1);
        }
    }
    sorted
}

} // verus!
