use vstd::prelude::*;
use vstd::string::StringExecFns;
use crate::levels::{difficulty_names, same_text, DEFAULT_DIFFICULTIES};
use crate::model::Level;
use crate::playback::{lowercased, lowercase_text, trim_text, trimmed};
use crate::text::{split_chars, split_on};

verus! {

/// A difficulty filter that names none of the known difficulties.
#[derive(Debug)]
pub struct FilterError;

impl FilterError {
    pub fn message(&self) -> (r: &'static str)
        ensures
            r@ == "Filter did not match any known difficulty (easy, medium, hard)"@,
    {
        "Filter did not match any known difficulty (easy, medium, hard)"
    }
}

/// Whether a comma-separated filter asks for the difficulty `d`: some item, trimmed and
/// lowercased, is `d`.
pub open spec fn filter_requests(raw: Seq<char>, d: Seq<char>) -> bool {
    let items = split_on(raw, ',');
    exists|i: int| 0 <= i < items.len() && lowercased(trimmed(#[trigger] items[i])) == d
}

/// The difficulties a filter selects, in canonical order.
pub open spec fn selected_difficulties(raw: Seq<char>) -> Seq<Seq<char>> {
    difficulty_names().filter(requested_by(raw))
}

pub open spec fn requested_by(raw: Seq<char>) -> spec_fn(Seq<char>) -> bool {
    |d: Seq<char>| filter_requests(raw, d)
}

pub open spec fn str_views(v: Seq<&'static str>) -> Seq<Seq<char>> {
    v.map_values(|s: &'static str| s@)
}

/// The difficulties to aggregate: all three without a filter; else those the comma-separated
/// filter names (case and surrounding whitespace ignored), in canonical order, and an error
/// when it names none.
pub fn parse_filter(filter: Option<&str>) -> (r: Result<Vec<&'static str>, FilterError>)
    ensures
        match filter {
            None => r matches Ok(v) && str_views(v@) == difficulty_names(),
            Some(raw) => match r {
                Ok(v) => str_views(v@) == selected_difficulties(raw@) && v@.len() > 0,
                Err(_) => selected_difficulties(raw@).len() == 0,
            },
        },
{
    let raw = match filter {
        None => {
            let mut v: Vec<&'static str> = Vec::new();
            v.push("easy");
            v.push("medium");
            v.push("hard");
            assert(str_views(v@) =~= difficulty_names());
            return Ok(v);
        },
        Some(raw) => raw,
    };
    let items = split_chars(raw, ',');
    let n = items.len();
    let mut requested: Vec<String> = Vec::new();
    let mut i: usize = 0;
    while i < n
        invariant
            n == items.len(),
            items.deep_view() == split_on(raw@, ','),
            i <= n,
            requested.len() == i,
            forall|k: int| 0 <= k < i ==> #[trigger] requested@[k]@ == lowercased(trimmed(items.deep_view()[k])),
        decreases n - i,
    {
        let t = trim_text(items[i].as_str());
        requested.push(lowercase_text(t.as_str()));
        i = i + 1;
    }
    let mut selected: Vec<&'static str> = Vec::new();
    let names = DEFAULT_DIFFICULTIES;
    let mut j: usize = 0;
    assert(difficulty_names().subrange(0, 0).filter(requested_by(raw@)) =~= Seq::<Seq<char>>::empty()) by {
        reveal_with_fuel(Seq::<_>::filter, 1);
    }
    while j < 3
        invariant
            n == items.len(),
            items.deep_view() == split_on(raw@, ','),
            requested.len() == n,
            forall|k: int| 0 <= k < n ==> #[trigger] requested@[k]@ == lowercased(trimmed(items.deep_view()[k])),
            names@.len() == 3,
            forall|k: int| 0 <= k < 3 ==> #[trigger] names@[k]@ == difficulty_names()[k],
            j <= 3,
            str_views(selected@) == difficulty_names().subrange(0, j as int).filter(requested_by(raw@)),
        decreases 3 - j,
    {
        let d = names[j];
        let mut found = false;
        let mut k: usize = 0;
        while k < n
            invariant
                n == items.len(),
                requested.len() == n,
                k <= n,
                found == exists|m: int| 0 <= m < k && requested@[m]@ == d@,
            decreases n - k,
        {
            if same_text(requested[k].as_str(), d) {
                found = true;
            }
            k = k + 1;
        }
        proof {
            let ds = difficulty_names().subrange(0, j as int + 1);
            assert(ds.drop_last() =~= difficulty_names().subrange(0, j as int));
            assert(ds.last() == d@);
            assert(found == filter_requests(raw@, d@)) by {
                if filter_requests(raw@, d@) {
                    let m = choose|m: int| 0 <= m < split_on(raw@, ',').len() && lowercased(trimmed(#[trigger] split_on(raw@, ',')[m])) == d@;
                    assert(requested@[m]@ == d@);
                }
            }
        }
        let ghost before = selected@;
        if found {
            selected.push(d);
            assert(str_views(selected@) =~= str_views(before).push(d@));
        }
        proof {
            let ds = difficulty_names().subrange(0, j as int + 1);
            assert(requested_by(raw@)(d@) == found);
            reveal_with_fuel(Seq::<_>::filter, 1);
            assert(ds.filter(requested_by(raw@)) == if requested_by(raw@)(ds.last()) {
                ds.drop_last().filter(requested_by(raw@)).push(ds.last())
            } else {
                ds.drop_last().filter(requested_by(raw@))
            });
        }
        j = j + 1;
    }
    assert(difficulty_names().subrange(0, 3) =~= difficulty_names());
    if selected.len() == 0 {
        Err(FilterError)
    } else {
        Ok(selected)
    }
}

/// The number of food items of every kind in a level.
pub open spec fn food_total(level: Level) -> nat {
    (level.food.len() + level.floating_food.len() + level.falling_food.len()) as nat
}

/// The number of food items of every kind, which must fit the 32-bit `totalFood` field.
pub fn derive_total_food(level: &Level) -> (r: u32)
    requires
        food_total(*level) <= u32::MAX,
    ensures
        r == food_total(*level),
{
    (level.food.len() as u64 + level.floating_food.len() as u64 + level.falling_food.len() as u64) as u32
}

/// Gives a level without a `totalFood` the number of its food items of every kind, and returns
/// the value added; a level that has one is left as it is.
pub fn ensure_total_food(level: &mut Level) -> (r: Option<u32>)
    requires
        food_total(*old(level)) <= u32::MAX,
    ensures
        match old(level).total_food {
            None => r == Some(food_total(*old(level)) as u32) && *final(level) == (Level {
                total_food: r,
                ..*old(level)
            }),
            Some(_) => r is None && *final(level) == *old(level),
        },
{
    if level.total_food.is_none() {
        let t = derive_total_food(level);
        level.total_food = Some(t);
        return Some(t);
    }
    None
}

/// Sets a level's difficulty to the catalog entry's own difficulty, else to the difficulty
/// being aggregated.
pub fn stamp_difficulty(level: &mut Level, entry_difficulty: &Option<String>, difficulty: &str)
    ensures
        final(level).difficulty matches Some(d) && d@ == match entry_difficulty {
            Some(e) => e@,
            None => difficulty@,
        },
        *final(level) == (Level { difficulty: final(level).difficulty, ..*old(level) }),
{
    let d = match entry_difficulty {
        Some(e) => e.clone(),
        None => String::from_str(difficulty),
    };
    level.difficulty = Some(d);
}

/// The difficulty filter handed to the metadata sync: none when every difficulty is
/// selected, else the selected names joined by commas.
pub fn sync_filter(difficulties: &Vec<&'static str>) -> (r: Option<String>)
    ensures
        difficulties.len() == 3 ==> r is None,
        difficulties.len() != 3 ==> (r matches Some(s) && s@ == join_commas(str_views(difficulties@))),
{
    if difficulties.len() == 3 {
        return None;
    }
    let n = difficulties.len();
    let mut s = String::new();
    let mut i: usize = 0;
    assert(str_views(difficulties@).subrange(0, 0) =~= Seq::<Seq<char>>::empty());
    while i < n
        invariant
            n == difficulties.len(),
            i <= n,
            s@ == join_commas(str_views(difficulties@).subrange(0, i as int)),
        decreases n - i,
    {
        proof {
            assert(str_views(difficulties@).subrange(0, i as int + 1).drop_last() =~= str_views(
                difficulties@,
            ).subrange(0, i as int));
        }
        if i > 0 {
            s = s.concat(",");
        }
        s = s.concat(difficulties[i]);
        i = i + 1;
    }
    assert(str_views(difficulties@).subrange(0, n as int) =~= str_views(difficulties@));
    Some(s)
}

/// The names joined by commas.
pub open spec fn join_commas(w: Seq<Seq<char>>) -> Seq<char>
    decreases w.len(),
{
    if w.len() == 0 {
        Seq::empty()
    } else if w.len() == 1 {
        w[0]
    } else {
        join_commas(w.drop_last()) + ","@ + w.last()
    }
}

} // verus!
