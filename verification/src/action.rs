//! The lines of an action, and the texts that plugins exchange.

use crate::raw_value::RawValue;
use crate::str_map::StrMap;
use std::collections::VecDeque;
use vstd::prelude::*;

verus! {

broadcast use vstd::string::group_string_axioms;

/// A piece of text, shown character by character or all at once.
pub enum LineView {
    /// Characters shown one by one.
    Chars(Seq<char>),
    /// Characters shown together.
    Block(Seq<char>),
}

/// The characters of a piece of text.
pub open spec fn line_str(l: LineView) -> Seq<char> {
    match l {
        LineView::Chars(s) => s,
        LineView::Block(s) => s,
    }
}

/// All the characters of a sequence of pieces, one piece after the other.
pub open spec fn full_text(v: Seq<LineView>) -> Seq<char>
    decreases v.len(),
{
    if v.len() == 0 {
        Seq::empty()
    } else {
        full_text(v.drop_last()) + line_str(v.last())
    }
}

/// The pieces after `s` is pushed as characters: it joins a last piece of
/// characters, and else comes as a piece of its own.
pub open spec fn push_chars_spec(v: Seq<LineView>, s: Seq<char>) -> Seq<LineView> {
    if v.len() > 0 && v.last() is Chars {
        v.drop_last().push(LineView::Chars(line_str(v.last()) + s))
    } else {
        v.push(LineView::Chars(s))
    }
}

/// The pieces after `s` is pushed as a block: it joins a last block, and else
/// comes as a piece of its own.
pub open spec fn push_block_spec(v: Seq<LineView>, s: Seq<char>) -> Seq<LineView> {
    if v.len() > 0 && v.last() is Block {
        v.drop_last().push(LineView::Block(line_str(v.last()) + s))
    } else {
        v.push(LineView::Block(s))
    }
}

/// Pushing a string, as characters or as a block, appends it to the full text.
pub proof fn lemma_push_full_text(v: Seq<LineView>, s: Seq<char>)
    ensures
        full_text(push_chars_spec(v, s)) == full_text(v) + s,
        full_text(push_block_spec(v, s)) == full_text(v) + s,
{
    if v.len() > 0 {
        let p = v.drop_last();
        assert(p.push(v.last()) =~= v);
        assert(full_text(v) == full_text(p) + line_str(v.last()));
        let c = p.push(LineView::Chars(line_str(v.last()) + s));
        assert(c.drop_last() =~= p);
        let b = p.push(LineView::Block(line_str(v.last()) + s));
        assert(b.drop_last() =~= p);
        assert(full_text(p) + (line_str(v.last()) + s) =~= full_text(v) + s);
    }
    assert(v.push(LineView::Chars(s)).drop_last() =~= v);
    assert(v.push(LineView::Block(s)).drop_last() =~= v);
}

/// The unit of one line in an action.
///
/// If a frontend supports animation,
/// the characters in [`ActionLine::Chars`] should be printed one by one,
/// while the characters in [`ActionLine::Block`] should be printed together.
#[derive(Debug, Clone, PartialEq, Eq)]
pub enum ActionLine {
    /// Characters printed one by one.
    /// Usually they are meaningful texts.
    Chars(String),
    /// Characters printed together.
    /// Usually they are HTML tags or other control characters.
    Block(String),
}

impl View for ActionLine {
    type V = LineView;

    open spec fn view(&self) -> LineView {
        match self {
            ActionLine::Chars(s) => LineView::Chars(s@),
            ActionLine::Block(s) => LineView::Block(s@),
        }
    }
}

/// The views of a sequence of lines.
pub open spec fn lines_view(v: Seq<ActionLine>) -> Seq<LineView> {
    v.map_values(|l: ActionLine| l@)
}

impl ActionLine {
    /// Creates [`ActionLine::Chars`].
    pub fn chars(s: &str) -> (l: Self)
        ensures
            l@ == LineView::Chars(s@),
    {
        ActionLine::Chars(s.to_string())
    }

    /// Creates [`ActionLine::Block`].
    pub fn block(s: &str) -> (l: Self)
        ensures
            l@ == LineView::Block(s@),
    {
        ActionLine::Block(s.to_string())
    }

    /// Gets a reference of [`str`].
    pub fn as_str(&self) -> (r: &str)
        ensures
            r@ == line_str(self@),
    {
        match self {
            ActionLine::Chars(s) => s.as_str(),
            ActionLine::Block(s) => s.as_str(),
        }
    }

    /// Gets the inner [`String`].
    pub fn into_string(self) -> (r: String)
        ensures
            r@ == line_str(self@),
    {
        match self {
            ActionLine::Chars(s) => s,
            ActionLine::Block(s) => s,
        }
    }
}

/// A collection of [`ActionLine`], which can be pushed and popped at both ends.
///
/// To push text, `push_back_chars` and `push_back_block` join it to the last
/// line where that line is of the same kind.
pub struct ActionLines(VecDeque<ActionLine>);

impl View for ActionLines {
    type V = Seq<LineView>;

    closed spec fn view(&self) -> Seq<LineView> {
        lines_view(self.0@)
    }
}

impl ActionLines {
    /// No lines.
    pub fn new() -> (l: Self)
        ensures
            l@ == Seq::<LineView>::empty(),
    {
        let l = ActionLines(VecDeque::new());
        assert(l@ =~= Seq::<LineView>::empty());
        l
    }

    /// The number of lines.
    pub fn len(&self) -> (n: usize)
        ensures
            n == self@.len(),
    {
        self.0.len()
    }

    /// Whether there is no line.
    pub fn is_empty(&self) -> (b: bool)
        ensures
            b == (self@.len() == 0),
    {
        self.0.len() == 0
    }

    /// The line at `i`.
    pub fn get(&self, i: usize) -> (l: &ActionLine)
        requires
            i < self@.len(),
        ensures
            l@ == self@[i as int],
    {
        &self.0[i]
    }

    /// Pushes a line at the back.
    pub fn push_back(&mut self, line: ActionLine)
        ensures
            final(self)@ == old(self)@.push(line@),
    {
        self.0.push_back(line);
        assert(final(self)@ =~= old(self)@.push(line@));
    }

    /// Pushes a line at the front.
    pub fn push_front(&mut self, line: ActionLine)
        ensures
            final(self)@ == seq![line@] + old(self)@,
    {
        self.0.push_front(line);
        assert(final(self)@ =~= seq![line@] + old(self)@);
    }

    /// Removes the last line.
    pub fn pop_back(&mut self) -> (l: Option<ActionLine>)
        ensures
            old(self)@.len() == 0 ==> l is None && final(self)@ == old(self)@,
            old(self)@.len() > 0 ==> l is Some && l->0@ == old(self)@.last() && final(self)@
                == old(self)@.drop_last(),
    {
        let l = self.0.pop_back();
        assert(old(self)@.len() > 0 ==> final(self)@ =~= old(self)@.drop_last());
        l
    }

    /// Removes the first line.
    pub fn pop_front(&mut self) -> (l: Option<ActionLine>)
        ensures
            old(self)@.len() == 0 ==> l is None && final(self)@ == old(self)@,
            old(self)@.len() > 0 ==> l is Some && l->0@ == old(self)@[0] && final(self)@
                == old(self)@.drop_first(),
    {
        let l = self.0.pop_front();
        assert(old(self)@.len() > 0 ==> final(self)@ =~= old(self)@.drop_first());
        l
    }

    /// Moves all the lines of `other` to the back.
    pub fn append(&mut self, other: &mut ActionLines)
        ensures
            final(self)@ == old(self)@ + old(other)@,
            final(other)@ == Seq::<LineView>::empty(),
    {
        self.0.append(&mut other.0);
        assert(final(self)@ =~= old(self)@ + old(other)@);
        assert(final(other)@ =~= Seq::<LineView>::empty());
    }

    /// Push the string as [`ActionLine::Chars`] to the back.
    /// If the back element is also [`ActionLine::Chars`], the string is appended.
    pub fn push_back_chars(&mut self, s: &str)
        ensures
            final(self)@ == push_chars_spec(old(self)@, s@),
    {
        let last = self.0.pop_back();
        let ghost rest = self.0@;
        assert(old(self).0@.len() > 0 ==> rest =~= old(self).0@.drop_last());
        match last {
            Some(ActionLine::Chars(t)) => {
                let mut t = t;
                t.append(s);
                self.0.push_back(ActionLine::Chars(t));
            },
            Some(other) => {
                self.0.push_back(other);
                self.0.push_back(ActionLine::chars(s));
            },
            None => {
                self.0.push_back(ActionLine::chars(s));
            },
        }
        assert(final(self)@ =~= push_chars_spec(old(self)@, s@));
    }

    /// Push the string as [`ActionLine::Block`] to the back.
    /// If the back element is also [`ActionLine::Block`], the string is appended.
    pub fn push_back_block(&mut self, s: &str)
        ensures
            final(self)@ == push_block_spec(old(self)@, s@),
    {
        let last = self.0.pop_back();
        let ghost rest = self.0@;
        assert(old(self).0@.len() > 0 ==> rest =~= old(self).0@.drop_last());
        match last {
            Some(ActionLine::Block(t)) => {
                let mut t = t;
                t.append(s);
                self.0.push_back(ActionLine::Block(t));
            },
            Some(other) => {
                self.0.push_back(other);
                self.0.push_back(ActionLine::block(s));
            },
            None => {
                self.0.push_back(ActionLine::block(s));
            },
        }
        assert(final(self)@ =~= push_block_spec(old(self)@, s@));
    }
}

impl Default for ActionLines {
    fn default() -> (l: Self)
        ensures
            l@ == Seq::<LineView>::empty(),
    {
        ActionLines::new()
    }
}

/// The unit of one line in an action text.
///
/// If a frontend supports animation,
/// the characters in [`ActionSubText::Chars`] should be printed one by one,
/// while the characters in [`ActionSubText::Block`] should be printed together.
#[derive(Debug, Clone, PartialEq, Eq)]
pub enum ActionSubText {
    /// Characters printed one by one.
    /// Usually they are meaningful texts.
    Chars(String),
    /// Characters printed together.
    /// Usually they are HTML tags or other control characters.
    Block(String),
}

impl View for ActionSubText {
    type V = LineView;

    open spec fn view(&self) -> LineView {
        match self {
            ActionSubText::Chars(s) => LineView::Chars(s@),
            ActionSubText::Block(s) => LineView::Block(s@),
        }
    }
}

/// The views of a sequence of sub-texts.
pub open spec fn sub_texts_view(v: Seq<ActionSubText>) -> Seq<LineView> {
    v.map_values(|l: ActionSubText| l@)
}

impl ActionSubText {
    /// Creates [`ActionSubText::Chars`].
    pub fn chars(s: &str) -> (l: Self)
        ensures
            l@ == LineView::Chars(s@),
    {
        ActionSubText::Chars(s.to_string())
    }

    /// Creates [`ActionSubText::Block`].
    pub fn block(s: &str) -> (l: Self)
        ensures
            l@ == LineView::Block(s@),
    {
        ActionSubText::Block(s.to_string())
    }

    /// Gets a reference of [`str`].
    pub fn as_str(&self) -> (r: &str)
        ensures
            r@ == line_str(self@),
    {
        match self {
            ActionSubText::Chars(s) => s.as_str(),
            ActionSubText::Block(s) => s.as_str(),
        }
    }

    /// Gets the inner [`String`].
    pub fn into_string(self) -> (r: String)
        ensures
            r@ == line_str(self@),
    {
        match self {
            ActionSubText::Chars(s) => s,
            ActionSubText::Block(s) => s,
        }
    }
}

/// A map from variable name to [`RawValue`].
pub type VarMap = StrMap<RawValue>;

/// The texts of an action, with the character who speaks them.
///
/// The sub-texts could be pushed and popped at front or back. To push text,
/// `push_back_chars` and `push_back_block` join it to the last sub-text where
/// that one is of the same kind.
pub struct ActionText {
    /// The full texts.
    pub text: VecDeque<ActionSubText>,
    /// The key of current character.
    pub ch_key: Option<String>,
    /// The current character.
    pub character: Option<String>,
    /// The temp variables.
    pub vars: VarMap,
}

impl ActionText {
    /// No text, no character and no variable.
    pub fn new() -> (t: Self)
        ensures
            sub_texts_view(t.text@) == Seq::<LineView>::empty(),
            t.ch_key is None,
            t.character is None,
            t.vars@ == Map::<Seq<char>, RawValue>::empty(),
    {
        let t = ActionText {
            text: VecDeque::new(),
            ch_key: None,
            character: None,
            vars: StrMap::new(),
        };
        assert(sub_texts_view(t.text@) =~= Seq::<LineView>::empty());
        t
    }

    /// Push the string as [`ActionSubText::Chars`] to the back.
    /// If the back element is also [`ActionSubText::Chars`], the string is appended.
    pub fn push_back_chars(&mut self, s: &str)
        ensures
            sub_texts_view(final(self).text@) == push_chars_spec(sub_texts_view(old(self).text@), s@),
            final(self).ch_key == old(self).ch_key,
            final(self).character == old(self).character,
            final(self).vars == old(self).vars,
    {
        let last = self.text.pop_back();
        let ghost rest = self.text@;
        assert(old(self).text@.len() > 0 ==> rest =~= old(self).text@.drop_last());
        match last {
            Some(ActionSubText::Chars(t)) => {
                let mut t = t;
                t.append(s);
                self.text.push_back(ActionSubText::Chars(t));
            },
            Some(other) => {
                self.text.push_back(other);
                self.text.push_back(ActionSubText::chars(s));
            },
            None => {
                self.text.push_back(ActionSubText::chars(s));
            },
        }
        assert(sub_texts_view(self.text@) =~= push_chars_spec(sub_texts_view(old(self).text@), s@));
    }

    /// Push the string as [`ActionSubText::Block`] to the back.
    /// If the back element is also [`ActionSubText::Block`], the string is appended.
    pub fn push_back_block(&mut self, s: &str)
        ensures
            sub_texts_view(final(self).text@) == push_block_spec(sub_texts_view(old(self).text@), s@),
            final(self).ch_key == old(self).ch_key,
            final(self).character == old(self).character,
            final(self).vars == old(self).vars,
    {
        let last = self.text.pop_back();
        let ghost rest = self.text@;
        assert(old(self).text@.len() > 0 ==> rest =~= old(self).text@.drop_last());
        match last {
            Some(ActionSubText::Block(t)) => {
                let mut t = t;
                t.append(s);
                self.text.push_back(ActionSubText::Block(t));
            },
            Some(other) => {
                self.text.push_back(other);
                self.text.push_back(ActionSubText::block(s));
            },
            None => {
                self.text.push_back(ActionSubText::block(s));
            },
        }
        assert(sub_texts_view(self.text@) =~= push_block_spec(sub_texts_view(old(self).text@), s@));
    }

    /// All the sub-texts, one after the other, as `Display` writes them.
    pub fn to_string(&self) -> (r: String)
        ensures
            r@ == full_text(sub_texts_view(self.text@)),
    {
        let mut r = String::new();
        let mut i: usize = 0;
        while i < self.text.len()
            invariant
                i <= self.text@.len(),
                r@ == full_text(sub_texts_view(self.text@.subrange(0, i as int))),
            decreases self.text@.len() - i,
        {
            let ghost v = sub_texts_view(self.text@.subrange(0, i as int + 1));
            assert(v.drop_last() =~= sub_texts_view(self.text@.subrange(0, i as int)));
            r.append(self.text[i].as_str());
            i = i + 1;
        }
        assert(self.text@.subrange(0, i as int) =~= self.text@);
        r
    }
}

impl Default for ActionText {
    fn default() -> (t: Self)
        ensures
            sub_texts_view(t.text@) == Seq::<LineView>::empty(),
            t.ch_key is None,
            t.character is None,
            t.vars@ == Map::<Seq<char>, RawValue>::empty(),
    {
        ActionText::new()
    }
}

} // verus!
