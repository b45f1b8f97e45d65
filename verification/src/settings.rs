//! The records of a game: which texts have been read, and where a play stands.

use crate::context::{same_ctx, RawContext};
use crate::locale::Locale;
use crate::str_map::StrMap;
use vstd::prelude::*;

verus! {

broadcast use vstd::string::group_string_axioms;

/// Whether the act `act` of paragraph `para` is at or before the furthest act
/// that `record` holds for that paragraph.
pub open spec fn visited_spec(record: Map<Seq<char>, usize>, para: Seq<char>, act: usize) -> bool {
    record.contains_key(para) && record[para] >= act
}

/// The record after act `act` of paragraph `para` has been shown: the
/// paragraph keeps the furthest act shown.
pub open spec fn update_spec(record: Map<Seq<char>, usize>, para: Seq<char>, act: usize) -> Map<
    Seq<char>,
    usize,
> {
    if record.contains_key(para) && record[para] >= act {
        record
    } else {
        record.insert(para, act)
    }
}

/// The global record.
pub struct GlobalRecord {
    /// The key is the tag of paragraphs,
    /// the value is the maximum text index.
    pub record: StrMap<usize>,
}

impl GlobalRecord {
    /// A record of nothing.
    pub fn new() -> (r: Self)
        ensures
            r.record@ == Map::<Seq<char>, usize>::empty(),
    {
        GlobalRecord { record: StrMap::new() }
    }

    /// Determine if a [`RawContext`] has been visited,
    /// by the paragraph tag and action index.
    pub fn visited(&self, ctx: &RawContext) -> (b: bool)
        ensures
            b == visited_spec(self.record@, ctx.cur_para@, ctx.cur_act),
    {
        match self.record.get(ctx.cur_para.as_str()) {
            Some(max_act) => *max_act >= ctx.cur_act,
            None => false,
        }
    }

    /// Update the global record with the latest [`RawContext`].
    pub fn update(&mut self, ctx: &RawContext)
        ensures
            final(self).record@ == update_spec(old(self).record@, ctx.cur_para@, ctx.cur_act),
    {
        let act = match self.record.get(ctx.cur_para.as_str()) {
            Some(max_act) => if *max_act >= ctx.cur_act {
                *max_act
            } else {
                ctx.cur_act
            },
            None => ctx.cur_act,
        };
        let ghost before = self.record@;
        self.record.insert(ctx.cur_para.clone(), act);
        proof {
            if before.contains_key(ctx.cur_para@) && before[ctx.cur_para@] >= ctx.cur_act {
                assert(self.record@ =~= before);
            }
        }
    }
}

impl GlobalRecord {
    /// Records the last context of a play's history as shown, as the game
    /// does before it steps to its next text; an empty history records nothing.
    pub fn update_last(&mut self, record: &ActionRecord)
        ensures
            record.history@.len() == 0 ==> final(self).record@ == old(self).record@,
            record.history@.len() > 0 ==> final(self).record@ == update_spec(
                old(self).record@,
                record.history@.last().cur_para@,
                record.history@.last().cur_act,
            ),
    {
        let n = record.history.len();
        if n > 0 {
            self.update(&record.history[n - 1]);
        }
    }
}

impl Default for GlobalRecord {
    fn default() -> (r: Self)
        ensures
            r.record@ == Map::<Seq<char>, usize>::empty(),
    {
        GlobalRecord::new()
    }
}

/// Once an act has been recorded, it and every earlier act of its paragraph
/// count as visited.
pub proof fn lemma_update_visits(record: Map<Seq<char>, usize>, para: Seq<char>, act: usize, earlier: usize)
    requires
        earlier <= act,
    ensures
        visited_spec(update_spec(record, para, act), para, earlier),
{
}

/// Recording an act never makes a visited act unvisited.
pub proof fn lemma_update_keeps_visited(
    record: Map<Seq<char>, usize>,
    para: Seq<char>,
    act: usize,
    other_para: Seq<char>,
    other_act: usize,
)
    requires
        visited_spec(record, other_para, other_act),
    ensures
        visited_spec(update_spec(record, para, act), other_para, other_act),
{
}

/// Recording an act of one paragraph leaves what is visited in every other
/// paragraph as it was.
pub proof fn lemma_update_other_para(
    record: Map<Seq<char>, usize>,
    para: Seq<char>,
    act: usize,
    other_para: Seq<char>,
    other_act: usize,
)
    requires
        other_para != para,
    ensures
        visited_spec(update_spec(record, para, act), other_para, other_act) == visited_spec(
            record,
            other_para,
            other_act,
        ),
{
}

/// Recording the same act twice is the same as recording it once.
pub proof fn lemma_update_idempotent(record: Map<Seq<char>, usize>, para: Seq<char>, act: usize)
    ensures
        update_spec(update_spec(record, para, act), para, act) == update_spec(record, para, act),
{
}

/// A later act of a paragraph is visited only if it was visited before or is
/// the act just recorded.
pub proof fn lemma_update_visits_only(
    record: Map<Seq<char>, usize>,
    para: Seq<char>,
    act: usize,
    later: usize,
)
    requires
        later > act,
    ensures
        visited_spec(update_spec(record, para, act), para, later) == visited_spec(record, para, later),
{
}

/// Recording an act keeps, for its paragraph, the greater of the act and the
/// furthest act held before (none counting as 0), and every other paragraph
/// as it was; so no entry of the record ever decreases.
pub proof fn lemma_update_max(record: Map<Seq<char>, usize>, para: Seq<char>, act: usize)
    ensures
        update_spec(record, para, act).contains_key(para),
        update_spec(record, para, act)[para] == (if record.contains_key(para) && record[para] > act {
            record[para]
        } else {
            act
        }),
        forall|p: Seq<char>|
            p != para ==> (#[trigger] update_spec(record, para, act).contains_key(p)
                == record.contains_key(p)) && (record.contains_key(p) ==> update_spec(
                record,
                para,
                act,
            )[p] == record[p]),
        forall|p: Seq<char>|
            #[trigger] record.contains_key(p) ==> update_spec(record, para, act).contains_key(p)
                && update_spec(record, para, act)[p] >= record[p],
{
}

/// The specific record.
pub struct ActionRecord {
    /// The history actions.
    pub history: Vec<RawContext>,
}

impl ActionRecord {
    /// A record with no history.
    pub fn new() -> (r: Self)
        ensures
            r.history@.len() == 0,
    {
        ActionRecord { history: Vec::new() }
    }

    /// Get the [`RawContext`] object from the last action in the history.
    pub fn last_ctx(&self) -> (c: Option<&RawContext>)
        ensures
            self.history@.len() == 0 ==> c is None,
            self.history@.len() > 0 ==> c is Some && *c->0 == self.history@.last(),
    {
        if self.history.len() == 0 {
            None
        } else {
            Some(&self.history[self.history.len() - 1])
        }
    }

    /// Get the [`RawContext`] object from the last action in the history,
    /// and if the history is empty, a new one at the start paragraph `start`.
    pub fn last_ctx_with_game(&self, start: &str) -> (c: RawContext)
        ensures
            self.history@.len() > 0 ==> {
                &&& c.cur_base_para == self.history@.last().cur_base_para
                &&& c.cur_para == self.history@.last().cur_para
                &&& c.cur_act == self.history@.last().cur_act
                &&& c.locals@ == self.history@.last().locals@
            },
            self.history@.len() == 0 ==> {
                &&& c.cur_base_para@ == start@
                &&& c.cur_para@ == start@
                &&& c.cur_act == 0
                &&& c.locals@ == Map::<Seq<char>, crate::raw_value::RawValue>::empty()
            },
    {
        match self.last_ctx() {
            Some(c) => c.clone(),
            None => RawContext {
                cur_base_para: start.to_string(),
                cur_para: start.to_string(),
                cur_act: 0,
                locals: StrMap::new(),
            },
        }
    }
}

impl Default for ActionRecord {
    fn default() -> (r: Self)
        ensures
            r.history@.len() == 0,
    {
        ActionRecord::new()
    }
}

/// Two records hold the same contexts, in the same order.
pub open spec fn same_record(a: ActionRecord, b: ActionRecord) -> bool {
    &&& a.history@.len() == b.history@.len()
    &&& forall|i: int| 0 <= i < a.history@.len() ==> #[trigger] same_ctx(a.history@[i], b.history@[i])
}

impl Clone for ActionRecord {
    fn clone(&self) -> (r: Self)
        ensures
            same_record(r, *self),
    {
        let mut history: Vec<RawContext> = Vec::new();
        let mut i: usize = 0;
        while i < self.history.len()
            invariant
                i <= self.history@.len(),
                history@.len() == i,
                forall|j: int| 0 <= j < i ==> #[trigger] same_ctx(history@[j], self.history@[j]),
            decreases self.history@.len() - i,
        {
            history.push(self.history[i].clone());
            i = i + 1;
        }
        ActionRecord { history }
    }
}

/// The settings of the game.
pub struct Settings {
    /// The display language.
    pub lang: Locale,
    /// The secondary display language.
    pub sub_lang: Option<Locale>,
}

impl Default for Settings {
    /// English, and no secondary language.
    fn default() -> (s: Self)
        ensures
            s.lang@.language == seq!['e', 'n'],
            s.lang@.script is None,
            s.lang@.region is None,
            s.lang@.variants.len() == 0,
            s.sub_lang is None,
    {
        Settings { lang: Locale::default(), sub_lang: None }
    }
}

} // verus!
