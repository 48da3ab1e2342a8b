//! The stat that a character gains on ascension.
use vstd::prelude::*;
use vstd::string::StringExecFns;

verus! {

/// The base stats that every character gains on ascension.
pub open spec fn is_base_stat(key: Seq<char>) -> bool {
    ||| key == "FIGHT_PROP_BASE_ATTACK"@
    ||| key == "FIGHT_PROP_BASE_DEFENSE"@
    ||| key == "FIGHT_PROP_BASE_HP"@
}

/// The first key that is not a base stat, or the empty text where there is
/// none.
pub open spec fn first_special_stat(keys: Seq<String>) -> Seq<char>
    decreases keys.len(),
{
    if keys.len() == 0 {
        Seq::empty()
    } else if !is_base_stat(keys[0]@) {
        keys[0]@
    } else {
        first_special_stat(keys.drop_first())
    }
}

/// The character's special ascension stat: the first stat key of the first
/// ascension phase that is not a base stat; empty where there is no phase or
/// no such key.
pub fn get_ascension_stat_option(asc: Option<&Vec<String>>) -> (r: &str)
    ensures
        r@ == match asc {
            Some(keys) => first_special_stat(keys@),
            None => Seq::empty(),
        },
{
    match asc {
        Some(y) => get_ascension_stat(y),
        None => {
            proof {
                reveal_strlit("");
            }
            ""
        },
    }
}

fn get_ascension_stat(keys: &Vec<String>) -> (r: &str)
    ensures
        r@ == first_special_stat(keys@),
{
    let attack = String::from_str("FIGHT_PROP_BASE_ATTACK");
    let defense = String::from_str("FIGHT_PROP_BASE_DEFENSE");
    let hp = String::from_str("FIGHT_PROP_BASE_HP");
    let n = keys.len();
    let mut i: usize = 0;
    assert(keys@.skip(0) =~= keys@);
    while i < n
        invariant
            n == keys@.len(),
            0 <= i <= n,
            attack@ == "FIGHT_PROP_BASE_ATTACK"@,
            defense@ == "FIGHT_PROP_BASE_DEFENSE"@,
            hp@ == "FIGHT_PROP_BASE_HP"@,
            first_special_stat(keys@) == first_special_stat(keys@.skip(i as int)),
        decreases n - i,
    {
        assert(keys@.skip(i as int)[0] == keys@[i as int]);
        assert(keys@.skip(i as int).drop_first() =~= keys@.skip(i + 1));
        let key = &keys[i];
        if !(*key == attack || *key == defense || *key == hp) {
            return key.as_str();
        }
        i = i + 1;
    }
    proof {
        reveal_strlit("");
    }
    ""
}

} // verus!
