//! What a frontend keeps of a game: the statuses while it opens, the
//! settings and records it loaded, and the record of the current play.

use crate::context::{same_ctx, OpenStatus, RawContext};
use crate::settings::{same_record, visited_spec, ActionRecord, GlobalRecord, Settings};
use crate::line::{is_text_line, Line};
use vstd::prelude::*;
use vstd::std_specs::convert::FromSpecImpl;

verus! {

/// The status when opening a game.
#[derive(Debug, Clone)]
pub enum OpenGameStatus {
    /// Start loading config file.
    LoadProfile,
    /// Start creating plugin runtime.
    CreateRuntime,
    /// Loading the plugin.
    LoadPlugin(String, usize, usize),
    /// Executing game plugins.
    GamePlugin,
    /// Loading the resources.
    LoadResource,
    /// Loading the paragraphs.
    LoadParagraph,
    /// Loading the settings.
    LoadSettings,
    /// Loading the global records.
    LoadGlobalRecords,
    /// Loading the records.
    LoadRecords,
    /// The game is loaded.
    Loaded,
}

impl From<OpenStatus> for OpenGameStatus {
    fn from(value: OpenStatus) -> (s: Self) {
        match value {
            OpenStatus::LoadProfile => OpenGameStatus::LoadProfile,
            OpenStatus::CreateRuntime => OpenGameStatus::CreateRuntime,
            OpenStatus::LoadPlugin(name, i, len) => OpenGameStatus::LoadPlugin(name, i, len),
            OpenStatus::GamePlugin => OpenGameStatus::GamePlugin,
            OpenStatus::LoadResource => OpenGameStatus::LoadResource,
            OpenStatus::LoadParagraph => OpenGameStatus::LoadParagraph,
        }
    }
}

impl FromSpecImpl<OpenStatus> for OpenGameStatus {
    open spec fn obeys_from_spec() -> bool {
        true
    }

    /// Each status of a context keeps its name, and a plugin's name and
    /// position.
    open spec fn from_spec(value: OpenStatus) -> OpenGameStatus {
        match value {
            OpenStatus::LoadProfile => OpenGameStatus::LoadProfile,
            OpenStatus::CreateRuntime => OpenGameStatus::CreateRuntime,
            OpenStatus::LoadPlugin(name, i, len) => OpenGameStatus::LoadPlugin(name, i, len),
            OpenStatus::GamePlugin => OpenGameStatus::GamePlugin,
            OpenStatus::LoadResource => OpenGameStatus::LoadResource,
            OpenStatus::LoadParagraph => OpenGameStatus::LoadParagraph,
        }
    }
}

/// The state of a game that a frontend keeps: the record of the current play,
/// the current context, and the settings and records loaded when the game
/// opened. The game's own context and the storage of settings stay with the
/// frontend, which hands this model the contexts that the game produces.
pub struct GameViewModel {
    current_record: ActionRecord,
    current_raw_context: Option<RawContext>,
    settings: Option<Settings>,
    records: Vec<ActionRecord>,
    global_record: Option<GlobalRecord>,
}

impl GameViewModel {
    /// The contexts of the current play, in order.
    pub closed spec fn history(&self) -> Seq<RawContext> {
        self.current_record.history@
    }

    /// The current context, if any.
    pub closed spec fn current(&self) -> Option<RawContext> {
        self.current_raw_context
    }

    /// The saved records.
    pub closed spec fn saved(&self) -> Seq<ActionRecord> {
        self.records@
    }

    /// The settings, once loaded.
    pub closed spec fn loaded_settings(&self) -> Option<Settings> {
        self.settings
    }

    /// The global record, once loaded.
    pub closed spec fn global(&self) -> Option<GlobalRecord> {
        self.global_record
    }

    /// A model with nothing loaded.
    pub fn new() -> (m: Self)
        ensures
            m.history().len() == 0,
            m.current() is None,
            m.saved().len() == 0,
            m.loaded_settings() is None,
            m.global() is None,
    {
        GameViewModel {
            current_record: ActionRecord::new(),
            current_raw_context: None,
            settings: None,
            records: Vec::new(),
            global_record: None,
        }
    }

    /// Keeps what was loaded when the game opened.
    pub fn set_opened(&mut self, settings: Settings, global_record: GlobalRecord, records: Vec<ActionRecord>)
        ensures
            final(self).loaded_settings() == Some(settings),
            final(self).global() == Some(global_record),
            final(self).saved() == records@,
            final(self).history() == old(self).history(),
            final(self).current() == old(self).current(),
    {
        self.settings = Some(settings);
        self.global_record = Some(global_record);
        self.records = records;
    }

    /// The record of the current play.
    pub fn record(&self) -> (r: &ActionRecord)
        ensures
            r.history@ == self.history(),
    {
        &self.current_record
    }

    /// The loaded settings.
    pub fn settings(&self) -> (s: &Settings)
        requires
            self.loaded_settings() is Some,
        ensures
            *s == self.loaded_settings()->0,
    {
        self.settings.as_ref().unwrap()
    }

    /// The loaded records.
    pub fn records(&self) -> (r: &[ActionRecord])
        ensures
            r@ == self.saved(),
    {
        self.records.as_slice()
    }

    /// The loaded global record.
    pub fn global_record(&self) -> (g: &GlobalRecord)
        requires
            self.global() is Some,
        ensures
            *g == self.global()->0,
    {
        self.global_record.as_ref().unwrap()
    }

    /// Starts a play from a record, and gives the context the game should go
    /// on from: after the last one of the record, or at the start paragraph
    /// `start` where the record is empty.
    pub fn init_context(&mut self, record: ActionRecord, start: &str) -> (ctx: RawContext)
        requires
            record.history@.len() > 0 ==> record.history@.last().cur_act < usize::MAX,
        ensures
            final(self).history() == record.history@,
            final(self).current() == old(self).current(),
            final(self).saved() == old(self).saved(),
            record.history@.len() > 0 ==> {
                &&& ctx.cur_base_para == record.history@.last().cur_base_para
                &&& ctx.cur_para == record.history@.last().cur_para
                &&& ctx.cur_act == record.history@.last().cur_act + 1
                &&& ctx.locals@ == record.history@.last().locals@
            },
            record.history@.len() == 0 ==> {
                &&& ctx.cur_base_para@ == start@
                &&& ctx.cur_para@ == start@
                &&& ctx.cur_act == 0
                &&& ctx.locals@ == Map::<Seq<char>, crate::raw_value::RawValue>::empty()
            },
    {
        let mut ctx = record.last_ctx_with_game(start);
        self.current_record = record;
        if self.current_record.history.len() > 0 {
            ctx.cur_act = ctx.cur_act + 1;
        }
        ctx
    }

    /// A context of a text line joins the history of the current play; one of
    /// another line does not.
    fn push_history(&mut self, ctx: &RawContext, line: Option<&Line>)
        ensures
            is_text_line(line) ==> final(self).history().len() == old(self).history().len() + 1
                && final(self).history().drop_last() == old(self).history() && same_ctx(
                final(self).history().last(),
                *ctx,
            ),
            !(is_text_line(line)) ==> final(self).history() == old(self).history(),
            final(self).current() == old(self).current(),
            final(self).saved() == old(self).saved(),
            final(self).global() == old(self).global(),
    {
        let is_text = match line {
            Some(Line::Text(_)) => true,
            _ => false,
        };
        if is_text {
            self.current_record.history.push(ctx.clone());
            assert(self.history().drop_last() =~= old(self).history());
        }
    }

    /// Takes the context that the game ran next, if any, as the current one;
    /// `line` is the line of the paragraph at that context, and a context of a
    /// text line joins the history. Whether there was a context.
    pub fn next_run(&mut self, ctx: Option<RawContext>, line: Option<&Line>) -> (b: bool)
        ensures
            b == ctx is Some,
            final(self).current() == ctx,
            ctx is Some && is_text_line(line) ==> final(self).history().len()
                == old(self).history().len() + 1 && final(self).history().drop_last() == old(
                self,
            ).history() && same_ctx(final(self).history().last(), ctx->0),
            !(ctx is Some && is_text_line(line)) ==> final(self).history() == old(
                self,
            ).history(),
            ctx is None || !(line matches Some(Line::Text(_))) ==> final(self).history() == old(
                self,
            ).history(),
            ctx is Some && (line matches Some(Line::Text(_))) ==> final(self).history().len()
                == old(self).history().len() + 1,
            final(self).saved() == old(self).saved(),
            final(self).global() == old(self).global(),
    {
        if let Some(c) = &ctx {
            self.push_history(c, line);
        }
        self.current_raw_context = ctx;
        self.current_raw_context.is_some()
    }

    /// Steps back: drops the last context of the history, unless it is the
    /// only one, and gives it for the game to go back to; the context before
    /// it becomes the current one.
    pub fn next_back_run(&mut self) -> (back: Option<RawContext>)
        ensures
            old(self).history().len() <= 1 ==> back is None && final(self).history() == old(self).history()
                && final(self).current() == old(self).current(),
            old(self).history().len() > 1 ==> {
                &&& back == Some(old(self).history().last())
                &&& final(self).history() == old(self).history().drop_last()
                &&& final(self).current() is Some
                &&& same_ctx(final(self).current()->0, final(self).history().last())
            },
            final(self).saved() == old(self).saved(),
            final(self).global() == old(self).global(),
    {
        if self.current_record.history.len() <= 1 {
            None
        } else {
            let back = self.current_record.history.pop();
            let n = self.current_record.history.len();
            self.current_raw_context = Some(self.current_record.history[n - 1].clone());
            back
        }
    }

    /// The current context.
    pub fn current_run(&self) -> (c: Option<&RawContext>)
        ensures
            match c {
                Some(c) => self.current() == Some(*c),
                None => self.current() is None,
            },
    {
        self.current_raw_context.as_ref()
    }

    /// Saves the record of the current play at `index`, or after the saved
    /// ones where `index` is past them.
    pub fn save_current_to(&mut self, index: usize)
        ensures
            index >= old(self).saved().len() ==> final(self).saved().len() == old(self).saved().len() + 1
                && final(self).saved().drop_last() == old(self).saved() && same_record(
                final(self).saved().last(),
                old(self).current_record_view(),
            ),
            index < old(self).saved().len() ==> final(self).saved().len() == old(self).saved().len()
                && (forall|i: int| 0 <= i < old(self).saved().len() && i != index ==> #[trigger] final(self).saved()[i] == old(self).saved()[i])
                && same_record(final(self).saved()[index as int], old(self).current_record_view()),
            final(self).history() == old(self).history(),
            final(self).current() == old(self).current(),
    {
        let record = self.current_record.clone();
        if index >= self.records.len() {
            self.records.push(record);
            assert(self.saved().drop_last() =~= old(self).saved());
        } else {
            self.records.set(index, record);
        }
    }

    /// The record of the current play.
    pub closed spec fn current_record_view(&self) -> ActionRecord {
        self.current_record
    }

    /// Whether the current context has been visited before.
    pub fn current_visited(&self) -> (b: bool)
        requires
            self.current() is Some ==> self.global() is Some,
        ensures
            b == (self.current() is Some && visited_spec(
                self.global()->0.record@,
                self.current()->0.cur_para@,
                self.current()->0.cur_act,
            )),
    {
        match self.current_run() {
            Some(ctx) => self.global_record().visited(ctx),
            None => false,
        }
    }
}

} // verus!
