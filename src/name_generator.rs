use vstd::prelude::*;
use vstd::set_lib::lemma_len_subset;
use vstd::string::StringExecFns;
use crate::analysis::{density_exceeds, LevelAnalysis, LevelMechanics, ObstaclePattern, ComplexityMetrics};
use crate::text::{decimal, decimal_string, lemma_decimal_injective};

verus! {

broadcast use {vstd::set::group_set_axioms, vstd::seq_lib::seq_to_set_is_finite};

pub open spec fn word_if(b: bool, w: Seq<char>) -> Seq<Seq<char>> {
    if b {
        seq![w]
    } else {
        Seq::empty()
    }
}

/// One word per mechanic present, in the fixed order floating, falling, stone, spike.
pub open spec fn mechanics_words(m: LevelMechanics) -> Seq<Seq<char>> {
    word_if(m.has_floating_food, "Floating"@) + word_if(m.has_falling_food, "Falling"@) + word_if(
        m.has_stones,
        "Stone"@,
    ) + word_if(m.has_spikes, "Spike"@)
}

/// The word for the obstacle pattern; scattered obstacles count only when there are any.
pub open spec fn pattern_words(a: LevelAnalysis) -> Seq<Seq<char>> {
    match a.pattern {
        ObstaclePattern::VerticalWall => seq!["Tower"@],
        ObstaclePattern::HorizontalWall => seq!["Bridge"@],
        ObstaclePattern::Scattered => word_if(density_exceeds(a.complexity, 0, 1), "Islands"@),
        ObstaclePattern::Empty => Seq::empty(),
    }
}

/// `Dense` above a density of 0.15, else `Feast` for more than five food items.
pub open spec fn complexity_words(c: ComplexityMetrics) -> Seq<Seq<char>> {
    if density_exceeds(c, 3, 20) {
        seq!["Dense"@]
    } else {
        word_if(c.food_count > 5, "Feast"@)
    }
}

/// The words of a level's name: at most four.
pub open spec fn name_words(a: LevelAnalysis) -> Seq<Seq<char>> {
    let w = mechanics_words(a.mechanics) + pattern_words(a) + complexity_words(a.complexity);
    let w = if w.len() == 0 {
        if density_exceeds(a.complexity, 1, 10) {
            seq!["Maze"@]
        } else {
            seq!["Simple"@]
        }
    } else {
        w
    };
    if w.len() > 4 {
        w.subrange(0, 4)
    } else {
        w
    }
}

/// The words joined by single spaces.
pub open spec fn join_words(w: Seq<Seq<char>>) -> Seq<char>
    decreases w.len(),
{
    if w.len() == 0 {
        Seq::empty()
    } else if w.len() == 1 {
        w[0]
    } else {
        join_words(w.drop_last()) + " "@ + w.last()
    }
}

/// The name a level gets before any counter is added.
pub open spec fn base_name(a: LevelAnalysis) -> Seq<char> {
    join_words(name_words(a))
}

/// `base` followed by a space and the counter `k`.
pub open spec fn numbered(base: Seq<char>, k: nat) -> Seq<char> {
    base + " "@ + decimal(k)
}

/// The name generated against the names already `used`: the base name if it is free, else the
/// base name with the smallest counter from 2 up that gives a free name.
pub open spec fn is_generated_name(a: LevelAnalysis, used: Seq<Seq<char>>, name: Seq<char>) -> bool {
    let base = base_name(a);
    if !used.contains(base) {
        name == base
    } else {
        exists|k: nat|
            k >= 2 && name == numbered(base, k) && !used.contains(name) && forall|j: nat|
                2 <= j < k ==> used.contains(#[trigger] numbered(base, j))
    }
}

proof fn lemma_numbered_injective(base: Seq<char>, a: nat, b: nat)
    requires
        numbered(base, a) == numbered(base, b),
    ensures
        a == b,
{
    reveal_strlit(" ");
    let p = base.len() + 1;
    assert(decimal(a) =~= numbered(base, a).subrange(p as int, numbered(base, a).len() as int));
    assert(decimal(b) =~= numbered(base, b).subrange(p as int, numbered(base, b).len() as int));
    lemma_decimal_injective(a, b);
}

fn push_word(words: &mut Vec<String>, w: &str)
    ensures
        final(words).deep_view() == old(words).deep_view().push(w@),
{
    let ghost before = words.deep_view();
    words.push(String::from_str(w));
    assert(words.deep_view() =~= before.push(w@));
}

fn contains_name(used: &Vec<String>, name: &String) -> (r: bool)
    ensures
        r == used.deep_view().contains(name@),
{
    let n = used.len();
    let mut i: usize = 0;
    while i < n
        invariant
            n == used.len(),
            i <= n,
            forall|k: int| 0 <= k < i ==> used.deep_view()[k] != name@,
        decreases n - i,
    {
        if used[i] == *name {
            assert(used.deep_view()[i as int] == name@);
            return true;
        }
        i = i + 1;
    }
    false
}

/// Joins the words with single spaces.
fn join_with_spaces(words: &Vec<String>) -> (r: String)
    ensures
        r@ == join_words(words.deep_view()),
{
    let n = words.len();
    if n == 0 {
        return String::new();
    }
    let mut s = words[0].clone();
    let mut i: usize = 1;
    assert(words.deep_view().subrange(0, 1).drop_last().len() == 0);
    while i < n
        invariant
            n == words.len(),
            1 <= i <= n,
            s@ == join_words(words.deep_view().subrange(0, i as int)),
        decreases n - i,
    {
        let ghost prefix = words.deep_view().subrange(0, i as int + 1);
        assert(prefix.drop_last() =~= words.deep_view().subrange(0, i as int));
        s = s.concat(" ");
        s = s.concat(words[i].as_str());
        i = i + 1;
    }
    assert(words.deep_view().subrange(0, n as int) =~= words.deep_view());
    s
}

fn push_mechanics_words(words: &mut Vec<String>, m: LevelMechanics)
    ensures
        final(words).deep_view() == old(words).deep_view() + mechanics_words(m),
{
    let ghost w0 = words.deep_view();
    if m.has_floating_food {
        push_word(words, "Floating");
    }
    assert(words.deep_view() =~= w0 + word_if(m.has_floating_food, "Floating"@));
    let ghost w1 = words.deep_view();
    if m.has_falling_food {
        push_word(words, "Falling");
    }
    assert(words.deep_view() =~= w1 + word_if(m.has_falling_food, "Falling"@));
    let ghost w2 = words.deep_view();
    if m.has_stones {
        push_word(words, "Stone");
    }
    assert(words.deep_view() =~= w2 + word_if(m.has_stones, "Stone"@));
    let ghost w3 = words.deep_view();
    if m.has_spikes {
        push_word(words, "Spike");
    }
    assert(words.deep_view() =~= w3 + word_if(m.has_spikes, "Spike"@));
    assert(words.deep_view() =~= w0 + mechanics_words(m));
}

fn push_pattern_words(words: &mut Vec<String>, analysis: &LevelAnalysis)
    ensures
        final(words).deep_view() == old(words).deep_view() + pattern_words(*analysis),
{
    let ghost w0 = words.deep_view();
    let c = analysis.complexity;
    match analysis.pattern {
        ObstaclePattern::VerticalWall => push_word(words, "Tower"),
        ObstaclePattern::HorizontalWall => push_word(words, "Bridge"),
        ObstaclePattern::Scattered => {
            if c.grid_area > 0 && c.obstacle_count > 0 {
                push_word(words, "Islands");
            }
        },
        ObstaclePattern::Empty => {},
    }
    assert(words.deep_view() =~= w0 + pattern_words(*analysis));
}

fn push_complexity_words(words: &mut Vec<String>, c: ComplexityMetrics)
    ensures
        final(words).deep_view() == old(words).deep_view() + complexity_words(c),
{
    let ghost w0 = words.deep_view();
    let count = c.obstacle_count as i128;
    let area = c.grid_area as i128;
    if c.grid_area > 0 && count * 20 > 3 * area {
        push_word(words, "Dense");
    } else if c.food_count > 5 {
        push_word(words, "Feast");
    }
    assert(words.deep_view() =~= w0 + complexity_words(c));
}

/// The words describing the level, before truncation and before the fallback word.
fn descriptive_words(analysis: &LevelAnalysis) -> (words: Vec<String>)
    ensures
        words.deep_view() == mechanics_words(analysis.mechanics) + pattern_words(*analysis)
            + complexity_words(analysis.complexity),
{
    let mut words: Vec<String> = Vec::new();
    assert(words.deep_view() =~= Seq::<Seq<char>>::empty());
    push_mechanics_words(&mut words, analysis.mechanics);
    push_pattern_words(&mut words, analysis);
    push_complexity_words(&mut words, analysis.complexity);
    assert(words.deep_view() =~= mechanics_words(analysis.mechanics) + pattern_words(*analysis)
        + complexity_words(analysis.complexity));
    words
}

/// Generates a short descriptive name for a level from its analysis, unique among
/// `used_names`, and records it there.
pub fn generate_name(analysis: &LevelAnalysis, used_names: &mut Vec<String>) -> (name: String)
    ensures
        is_generated_name(*analysis, old(used_names).deep_view(), name@),
        !old(used_names).deep_view().contains(name@),
        final(used_names).deep_view() == old(used_names).deep_view().push(name@),
{
    let mut words = descriptive_words(analysis);
    if words.len() == 0 {
        let c = analysis.complexity;
        if c.grid_area > 0 && (c.obstacle_count as i128) * 10 > (c.grid_area as i128) {
            push_word(&mut words, "Maze");
        } else {
            push_word(&mut words, "Simple");
        }
    }
    let ghost w = words.deep_view();
    if words.len() > 4 {
        words.truncate(4);
    }
    assert(words.deep_view() =~= name_words(*analysis));
    let base = join_with_spaces(&words);
    let ghost used = used_names.deep_view();
    let mut name = base.clone();
    if contains_name(used_names, &name) {
        let n_used = used_names.len();
        let mut counter: u128 = 2;
        let ghost mut tried: Set<Seq<char>> = Set::empty();
        name = base.clone().concat(" ").concat(decimal_string(counter).as_str());
        proof {
            assert(name@ =~= numbered(base@, 2));
            used.lemma_cardinality_of_set();
            assert(used.len() == n_used);
        }
        while contains_name(used_names, &name)
            invariant
                used_names.deep_view() == used,
                base@ == base_name(*analysis),
                2 <= counter,
                name@ == numbered(base@, counter as nat),
                forall|j: nat| 2 <= j < counter ==> used.contains(#[trigger] numbered(base@, j)),
                tried.len() == counter - 2,
                tried.finite(),
                tried.subset_of(used.to_set()),
                forall|x: Seq<char>| #[trigger] tried.contains(x) ==> exists|j: nat|
                    2 <= j < counter && x == numbered(base@, j),
                used.to_set().len() <= used.len(),
                used.len() <= usize::MAX,
            decreases used.len() + 2 - counter,
        {
            proof {
                assert(!tried.contains(name@)) by {
                    if tried.contains(name@) {
                        let j = choose|j: nat| 2 <= j < counter && name@ == numbered(base@, j);
                        lemma_numbered_injective(base@, j, counter as nat);
                    }
                }
                let t2 = tried.insert(name@);
                assert(t2.subset_of(used.to_set()));
                lemma_len_subset(t2, used.to_set());
                tried = t2;
            }
            counter = counter + 1;
            name = base.clone().concat(" ").concat(decimal_string(counter).as_str());
            proof {
                assert(name@ =~= numbered(base@, counter as nat));
            }
        }
        assert(is_generated_name(*analysis, used, name@));
    }
    used_names.push(name.clone());
    proof {
        assert(used_names.deep_view() =~= used.push(name@));
    }
    name
}

} // verus!

verus! {

/// A level's name never has more than four words; with all four mechanics present those
/// four words are the mechanics words, and the pattern word is dropped.
pub proof fn lemma_name_word_cap(a: LevelAnalysis)
    ensures
        1 <= name_words(a).len() <= 4,
        a.mechanics.has_floating_food && a.mechanics.has_falling_food && a.mechanics.has_stones
            && a.mechanics.has_spikes ==> name_words(a) == seq![
            "Floating"@,
            "Falling"@,
            "Stone"@,
            "Spike"@,
        ],
{
    let m = a.mechanics;
    if m.has_floating_food && m.has_falling_food && m.has_stones && m.has_spikes {
        assert(mechanics_words(m) =~= seq!["Floating"@, "Falling"@, "Stone"@, "Spike"@]);
        let w = mechanics_words(m) + pattern_words(a) + complexity_words(a.complexity);
        assert(w.subrange(0, 4) =~= seq!["Floating"@, "Falling"@, "Stone"@, "Spike"@]);
    }
}

/// Two names generated in a row from the same analysis against one shared set of used names
/// differ, and the second is the base name followed by a counter.
pub proof fn lemma_second_name_is_numbered(
    a: LevelAnalysis,
    used: Seq<Seq<char>>,
    first: Seq<char>,
    second: Seq<char>,
)
    requires
        is_generated_name(a, used, first),
        !used.contains(first),
        is_generated_name(a, used.push(first), second),
        !used.push(first).contains(second),
    ensures
        second != first,
        exists|k: nat| k >= 2 && second == numbered(base_name(a), k),
{
    let base = base_name(a);
    assert(used.push(first).contains(first)) by {
        assert(used.push(first)[used.len() as int] == first);
    }
    if used.contains(base) {
        assert(used.push(first).contains(base)) by {
            let i = choose|i: int| 0 <= i < used.len() && used[i] == base;
            assert(used.push(first)[i] == base);
        }
    } else {
        assert(first == base);
    }
}

} // verus!

verus! {

/// Every word a name can be made of.
pub open spec fn name_vocabulary() -> Seq<Seq<char>> {
    seq![
        "Floating"@,
        "Falling"@,
        "Stone"@,
        "Spike"@,
        "Tower"@,
        "Bridge"@,
        "Islands"@,
        "Dense"@,
        "Feast"@,
        "Maze"@,
        "Simple"@,
    ]
}

pub open spec fn distinct_words(w: Seq<Seq<char>>) -> bool {
    forall|i: int, j: int| 0 <= i < j < w.len() ==> w[i] != w[j]
}

proof fn lemma_vocabulary_distinct()
    ensures
        distinct_words(name_vocabulary()),
{
    reveal_strlit("Floating");
    reveal_strlit("Falling");
    reveal_strlit("Stone");
    reveal_strlit("Spike");
    reveal_strlit("Tower");
    reveal_strlit("Bridge");
    reveal_strlit("Islands");
    reveal_strlit("Dense");
    reveal_strlit("Feast");
    reveal_strlit("Maze");
    reveal_strlit("Simple");
    let v = name_vocabulary();
    assert forall|i: int, j: int| 0 <= i < j < v.len() implies v[i] != v[j] by {
        assert(v[i][0] != v[j][0] || v[i][1] != v[j][1]);
    }
}

pub open spec fn index_if(b: bool, j: int) -> Seq<int> {
    if b {
        seq![j]
    } else {
        Seq::empty()
    }
}

/// `idx` gives, in increasing order and below `hi`, the vocabulary position of each word of `s`.
spec fn selects(s: Seq<Seq<char>>, idx: Seq<int>, hi: int) -> bool {
    &&& idx.len() == s.len()
    &&& forall|k: int| 0 <= k < s.len() ==> 0 <= #[trigger] idx[k] < hi && s[k] == name_vocabulary()[idx[k]]
    &&& forall|k: int, l: int| 0 <= k < l < s.len() ==> idx[k] < idx[l]
}

proof fn lemma_select_more(s: Seq<Seq<char>>, idx: Seq<int>, hi: int, b: bool, j: int)
    requires
        selects(s, idx, hi),
        0 <= hi <= j < 11,
    ensures
        selects(s + word_if(b, name_vocabulary()[j]), idx + index_if(b, j), j + 1),
{
    let t = s + word_if(b, name_vocabulary()[j]);
    let ti = idx + index_if(b, j);
    assert forall|k: int| 0 <= k < t.len() implies 0 <= #[trigger] ti[k] < j + 1 && t[k]
        == name_vocabulary()[ti[k]] by {
        if k >= s.len() {
            assert(b);
            assert(ti[k] == index_if(b, j)[k - s.len()]);
            assert(t[k] == word_if(b, name_vocabulary()[j])[k - s.len()]);
        } else {
            assert(ti[k] == idx[k]);
            assert(t[k] == s[k]);
        }
    }
    assert forall|k: int, l: int| 0 <= k < l < t.len() implies ti[k] < ti[l] by {
        if l >= s.len() {
            assert(b);
            assert(ti[l] == index_if(b, j)[l - s.len()]);
            if k >= s.len() {
                assert(false);
            }
            assert(ti[k] == idx[k]);
        } else {
            assert(ti[k] == idx[k] && ti[l] == idx[l]);
        }
    }
}

spec fn descriptive_index(a: LevelAnalysis) -> Seq<int> {
    let mm = a.mechanics;
    let c = a.complexity;
    let (pb, pj) = pattern_slot(a);
    let dense = density_exceeds(c, 3, 20);
    Seq::<int>::empty() + index_if(mm.has_floating_food, 0) + index_if(mm.has_falling_food, 1)
        + index_if(mm.has_stones, 2) + index_if(mm.has_spikes, 3) + index_if(pb, pj) + index_if(
        dense,
        7,
    ) + index_if(!dense && c.food_count > 5, 8)
}

spec fn pattern_slot(a: LevelAnalysis) -> (bool, int) {
    match a.pattern {
        ObstaclePattern::VerticalWall => (true, 4int),
        ObstaclePattern::HorizontalWall => (true, 5int),
        ObstaclePattern::Scattered => (density_exceeds(a.complexity, 0, 1), 6int),
        ObstaclePattern::Empty => (false, 6int),
    }
}

#[verifier::rlimit(40)]
proof fn lemma_descriptive_words_select(a: LevelAnalysis)
    ensures
        selects(
            mechanics_words(a.mechanics) + pattern_words(a) + complexity_words(a.complexity),
            descriptive_index(a),
            9,
        ),
{
    let v = name_vocabulary();
    let mm = a.mechanics;
    let c = a.complexity;
    let e = Seq::<Seq<char>>::empty();
    assert(selects(e, Seq::<int>::empty(), 0));
    lemma_select_more(e, Seq::<int>::empty(), 0, mm.has_floating_food, 0);
    let s1 = e + word_if(mm.has_floating_food, v[0]);
    let i1 = Seq::<int>::empty() + index_if(mm.has_floating_food, 0);
    lemma_select_more(s1, i1, 1, mm.has_falling_food, 1);
    let s2 = s1 + word_if(mm.has_falling_food, v[1]);
    let i2 = i1 + index_if(mm.has_falling_food, 1);
    lemma_select_more(s2, i2, 2, mm.has_stones, 2);
    let s3 = s2 + word_if(mm.has_stones, v[2]);
    let i3 = i2 + index_if(mm.has_stones, 2);
    lemma_select_more(s3, i3, 3, mm.has_spikes, 3);
    let s4 = s3 + word_if(mm.has_spikes, v[3]);
    let i4 = i3 + index_if(mm.has_spikes, 3);
    assert(s4 =~= mechanics_words(mm));
    let (pb, pj) = pattern_slot(a);
    lemma_select_more(s4, i4, 4, pb, pj);
    let s5 = s4 + word_if(pb, v[pj]);
    let i5 = i4 + index_if(pb, pj);
    assert(word_if(pb, v[pj]) =~= pattern_words(a));
    let dense = density_exceeds(c, 3, 20);
    lemma_select_more(s5, i5, pj + 1, dense, 7);
    let s6 = s5 + word_if(dense, v[7]);
    let i6 = i5 + index_if(dense, 7);
    let feast = !dense && c.food_count > 5;
    lemma_select_more(s6, i6, 8, feast, 8);
    assert(word_if(dense, v[7]) + word_if(feast, v[8]) =~= complexity_words(c));
    assert(s6 + word_if(feast, v[8]) =~= mechanics_words(mm) + pattern_words(a) + complexity_words(c));
}

/// A level's name is made of one to four distinct words, each from the fixed vocabulary.
pub proof fn lemma_name_words_are_distinct_vocabulary(a: LevelAnalysis)
    ensures
        1 <= name_words(a).len() <= 4,
        distinct_words(name_words(a)),
        forall|i: int| 0 <= i < name_words(a).len() ==> name_vocabulary().contains(#[trigger] name_words(a)[i]),
{
    lemma_vocabulary_distinct();
    lemma_descriptive_words_select(a);
    lemma_name_word_cap(a);
    let v = name_vocabulary();
    let c = a.complexity;
    let w = mechanics_words(a.mechanics) + pattern_words(a) + complexity_words(c);
    let (full, fi) = if w.len() == 0 {
        if density_exceeds(c, 1, 10) {
            (seq![v[9]], seq![9int])
        } else {
            (seq![v[10]], seq![10int])
        }
    } else {
        (w, descriptive_index(a))
    };
    assert(selects(full, fi, 11));
    let nw = name_words(a);
    assert(v[9] == "Maze"@ && v[10] == "Simple"@);
    assert(nw =~= if full.len() > 4 { full.subrange(0, 4) } else { full });
    assert forall|k: int| 0 <= k < nw.len() implies v.contains(#[trigger] nw[k]) by {
        assert(nw[k] == full[k]);
        assert(v[fi[k]] == nw[k]);
    }
    assert forall|k: int, l: int| 0 <= k < l < nw.len() implies nw[k] != nw[l] by {
        assert(nw[k] == v[fi[k]] && nw[l] == v[fi[l]]);
        assert(fi[k] < fi[l]);
    }
}

} // verus!
