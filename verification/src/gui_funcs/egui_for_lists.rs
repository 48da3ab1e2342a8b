//! The state of the window: the item lists, the searches, the query and
//! its results.
use vstd::prelude::*;
use vstd::string::StrSliceExecFns;
use crate::base_models::hakushin_lists::MinimalArtifactMap;
use crate::gui_funcs::display_lists::ItemNames;

verus! {

/// What the window shows and keeps between frames.
pub struct HakuGIApp {
    pub characters: Vec<ItemNames>,
    pub weapons: Vec<ItemNames>,
    pub cards: Vec<ItemNames>,
    pub artifacts: Vec<ItemNames>,
    pub query: String,
    pub arts: Option<MinimalArtifactMap>,
    pub outputs: Vec<String>,
    pub char_search: String,
    pub weap_search: String,
    pub arti_search: String,
    pub card_search: String,
}

/// The texts that are not empty, in order.
pub open spec fn nonempty_texts(s: Seq<Seq<char>>) -> Seq<Seq<char>>
    decreases s.len(),
{
    if s.len() == 0 {
        Seq::empty()
    } else if s.last().len() > 0 {
        nonempty_texts(s.drop_last()).push(s.last())
    } else {
        nonempty_texts(s.drop_last())
    }
}

impl HakuGIApp {
    /// A window over the given lists, with no query, results or searches.
    pub fn from_lists(
        characters: Vec<ItemNames>,
        weapons: Vec<ItemNames>,
        cards: Vec<ItemNames>,
        artifacts: Vec<ItemNames>,
        arts: Option<MinimalArtifactMap>,
    ) -> (r: HakuGIApp)
        ensures
            r.characters == characters,
            r.weapons == weapons,
            r.cards == cards,
            r.artifacts == artifacts,
            r.arts == arts,
            r.query@ == Seq::<char>::empty(),
            r.outputs@ == Seq::<String>::empty(),
            r.char_search@ == Seq::<char>::empty(),
            r.weap_search@ == Seq::<char>::empty(),
            r.arti_search@ == Seq::<char>::empty(),
            r.card_search@ == Seq::<char>::empty(),
    {
        HakuGIApp {
            characters,
            weapons,
            cards,
            artifacts,
            query: String::new(),
            arts,
            outputs: Vec::new(),
            char_search: String::new(),
            weap_search: String::new(),
            arti_search: String::new(),
            card_search: String::new(),
        }
    }

    /// Takes the query to run: returns it and leaves the query box empty.
    pub fn take_query(&mut self) -> (r: String)
        ensures
            r == old(self).query,
            final(self).query@ == Seq::<char>::empty(),
            final(self).outputs == old(self).outputs,
            final(self).characters == old(self).characters,
            final(self).weapons == old(self).weapons,
            final(self).cards == old(self).cards,
            final(self).artifacts == old(self).artifacts,
            final(self).arts == old(self).arts,
            final(self).char_search == old(self).char_search,
            final(self).weap_search == old(self).weap_search,
            final(self).arti_search == old(self).arti_search,
            final(self).card_search == old(self).card_search,
    {
        let q = self.query.clone();
        self.query = String::new();
        q
    }

    /// Adds a query's results after the earlier ones.
    pub fn record_outputs(&mut self, results: Vec<String>)
        ensures
            final(self).outputs@ == old(self).outputs@ + results@,
            final(self).query == old(self).query,
            final(self).characters == old(self).characters,
            final(self).weapons == old(self).weapons,
            final(self).cards == old(self).cards,
            final(self).artifacts == old(self).artifacts,
            final(self).arts == old(self).arts,
            final(self).char_search == old(self).char_search,
            final(self).weap_search == old(self).weap_search,
            final(self).arti_search == old(self).arti_search,
            final(self).card_search == old(self).card_search,
    {
        let mut results = results;
        self.outputs.append(&mut results);
    }

    /// The results to show: the non-empty ones, in order.
    pub fn shown_outputs(&self) -> (r: Vec<&String>)
        ensures
            r@.map_values(|s: &String| s@) == nonempty_texts(self.outputs@.map_values(|s: String| s@)),
    {
        let mut out: Vec<&String> = Vec::new();
        let n = self.outputs.len();
        let mut i: usize = 0;
        assert(self.outputs@.take(0).map_values(|s: String| s@) =~= Seq::<Seq<char>>::empty());
        while i < n
            invariant
                n == self.outputs@.len(),
                0 <= i <= n,
                out@.map_values(|s: &String| s@) == nonempty_texts(self.outputs@.take(i as int).map_values(|s: String| s@)),
            decreases n - i,
        {
            let ghost before = out@.map_values(|s: &String| s@);
            let o = &self.outputs[i];
            let ghost pre = self.outputs@.take(i as int).map_values(|s: String| s@);
            assert(self.outputs@.take(i + 1).map_values(|s: String| s@) =~= pre.push(o@));
            assert(pre.push(o@).drop_last() =~= pre);
            if o.as_str().unicode_len() > 0 {
                out.push(o);
                assert(out@.map_values(|s: &String| s@) =~= before.push(o@));
            }
            i = i + 1;
        }
        assert(self.outputs@.take(n as int) =~= self.outputs@);
        out
    }
}

} // verus!
