//! The selected text, read over the accessibility bus without touching the
//! clipboard.
//!
//! The object that has the focus is found by a [walk](super::walk). Reading it is a
//! sequence of questions, each of which may go unanswered: how many selections
//! there are, the range of each, the text of each range, how many characters the
//! object has, and its whole text.

use super::{Selection, SelectionView};
use crate::text::text_view;
use vstd::prelude::*;

verus! {

/// The largest number of characters of an object whose whole text is read.
pub const MAX_CONTENTS: i32 = 100_000;

/// What is asked next of the object that has the focus.
#[derive(Debug, Clone, Copy, PartialEq, Eq, Structural)]
pub enum Ask {
    /// How many selections it has.
    Count,
    /// The range of the selection with this index.
    Range { index: i32 },
    /// The text between two places, for the selection with this index.
    Part { index: i32, start: i32, end: i32 },
    /// How many characters it has.
    Size,
    /// Its text up to this place.
    Whole { count: i32 },
    /// Nothing: the result is there.
    Done,
}

/// An answer. It is missing where the object gave none.
#[derive(Debug, PartialEq, Eq)]
pub enum Reply {
    Number(Option<i32>),
    Range(Option<(i32, i32)>),
    Text(Option<String>),
}

/// A [`Reply`] as a mathematical value.
#[verifier::ext_equal]
pub enum ReplyView {
    Number(Option<i32>),
    Range(Option<(i32, i32)>),
    Text(Option<Seq<char>>),
}

impl Reply {
    /// The answer as a mathematical value.
    pub open spec fn view(&self) -> ReplyView {
        match *self {
            Reply::Number(n) => ReplyView::Number(n),
            Reply::Range(r) => ReplyView::Range(r),
            Reply::Text(t) => ReplyView::Text(text_view(t)),
        }
    }
}

impl ReplyView {
    /// The number that was answered.
    pub open spec fn number(self) -> Option<i32> {
        match self {
            ReplyView::Number(n) => n,
            _ => None,
        }
    }

    /// The range that was answered, where it is not empty.
    pub open spec fn range(self) -> Option<(i32, i32)> {
        match self {
            ReplyView::Range(Some(r)) if r.0 < r.1 => Some(r),
            _ => None,
        }
    }

    /// The text that was answered, or an empty one.
    pub open spec fn text(self) -> Seq<char> {
        match self {
            ReplyView::Text(Some(t)) => t,
            _ => Seq::empty(),
        }
    }
}

/// A [`SelectionRead`] as a mathematical value.
#[verifier::ext_equal]
pub struct ReadView {
    /// What is asked next.
    pub ask: Ask,
    /// How many selections there are.
    pub total: i32,
    /// The text that was read so far.
    pub selected: Seq<char>,
    /// What was read, once nothing is asked.
    pub result: Option<SelectionView>,
}

impl ReadView {
    /// Nothing was asked yet.
    pub open spec fn start() -> ReadView {
        ReadView { ask: Ask::Count, total: 0, selected: Seq::empty(), result: None }
    }

    /// The indices are in order, and there is no result before the end.
    pub open spec fn wf(self) -> bool {
        &&& self.ask is Done || self.result is None
        &&& match self.ask {
            Ask::Range { index } => 0 <= index < self.total,
            Ask::Part { index, .. } => 0 <= index < self.total,
            _ => true,
        }
    }

    /// Nothing is left to ask, and `result` was read.
    pub open spec fn ended(self, result: Option<SelectionView>) -> ReadView {
        ReadView { ask: Ask::Done, result, ..self }
    }

    /// The selection `index` is asked for next, where there is one. Behind the last
    /// the text that was read counts, unless it is empty.
    pub open spec fn at(self, index: int) -> ReadView {
        if index < self.total {
            ReadView { ask: Ask::Range { index: index as i32 }, ..self }
        } else if self.selected.len() == 0 {
            self.ended(None)
        } else {
            ReadView { ask: Ask::Size, ..self }
        }
    }

    /// The text that was read, with the whole text of the object.
    pub open spec fn with_contents(self, contents: Seq<char>) -> ReadView {
        self.ended(
            Some(
                SelectionView {
                    selected_text: self.selected,
                    contents,
                    before_text: Seq::empty(),
                    after_text: Seq::empty(),
                },
            ),
        )
    }

    /// What follows an answer.
    pub open spec fn after(self, reply: ReplyView) -> ReadView {
        match self.ask {
            Ask::Count => match reply.number() {
                Some(n) if n > 0 => (ReadView { total: n, ..self }).at(0),
                _ => self.ended(None),
            },
            Ask::Range { index } => match reply.range() {
                Some((start, end)) => ReadView { ask: Ask::Part { index, start, end }, ..self },
                None => self.at(index + 1),
            },
            Ask::Part { index, .. } => (ReadView {
                selected: self.selected + reply.text(),
                ..self
            }).at(index + 1),
            Ask::Size => match reply.number() {
                Some(count) if 0 < count <= MAX_CONTENTS => ReadView {
                    ask: Ask::Whole { count },
                    ..self
                },
                _ => self.with_contents(Seq::empty()),
            },
            Ask::Whole { .. } => self.with_contents(reply.text()),
            Ask::Done => self,
        }
    }
}

/// A selection that may be missing.
pub open spec fn selection_view(s: Option<Selection>) -> Option<SelectionView> {
    match s {
        Some(s) => Some(s@),
        None => None,
    }
}

/// Reads the selection of the object that has the focus: it says what to ask and
/// takes the answers.
pub struct SelectionRead {
    ask: Ask,
    total: i32,
    selected: String,
    result: Option<Selection>,
}

impl SelectionRead {
    /// The state as a mathematical value.
    pub closed spec fn view(&self) -> ReadView {
        ReadView {
            ask: self.ask,
            total: self.total,
            selected: self.selected@,
            result: selection_view(self.result),
        }
    }

    #[verifier::type_invariant]
    spec fn inv(self) -> bool {
        self.view().wf()
    }

    /// Begins to read.
    pub fn new() -> (r: SelectionRead)
        ensures
            r@ == ReadView::start(),
    {
        SelectionRead { ask: Ask::Count, total: 0, selected: String::new(), result: None }
    }

    /// What is to be asked next.
    pub fn ask(&self) -> (r: Ask)
        ensures
            r == self@.ask,
    {
        self.ask
    }

    fn at(total: i32, selected: String, index: i32) -> (r: SelectionRead)
        requires
            0 <= index <= total,
        ensures
            r@ == (ReadView {
                ask: Ask::Count,
                total,
                selected: selected@,
                result: None,
            }).at(index as int),
    {
        if index < total {
            SelectionRead { ask: Ask::Range { index }, total, selected, result: None }
        } else if selected.as_str().is_empty() {
            SelectionRead { ask: Ask::Done, total, selected, result: None }
        } else {
            SelectionRead { ask: Ask::Size, total, selected, result: None }
        }
    }

    fn with_contents(total: i32, selected: String, contents: String) -> (r: SelectionRead)
        ensures
            r@ == (ReadView {
                ask: Ask::Done,
                total,
                selected: selected@,
                result: None,
            }).with_contents(contents@),
    {
        let result = Selection {
            selected_text: selected.clone(),
            contents,
            before_text: String::new(),
            after_text: String::new(),
        };
        SelectionRead { ask: Ask::Done, total, selected, result: Some(result) }
    }

    /// Takes the answer to what was asked.
    pub fn answer(self, reply: Reply) -> (r: SelectionRead)
        ensures
            r@ == self@.after(reply@),
    {
        proof {
            use_type_invariant(&self);
        }
        let SelectionRead { ask, total, selected, result } = self;
        match ask {
            Ask::Count => match reply {
                Reply::Number(Some(n)) if n > 0 => {
                    SelectionRead { ask: Ask::Range { index: 0 }, total: n, selected, result }
                },
                _ => SelectionRead { ask: Ask::Done, total, selected, result: None },
            },
            Ask::Range { index } => match reply {
                Reply::Range(Some((start, end))) if start < end => {
                    SelectionRead { ask: Ask::Part { index, start, end }, total, selected, result }
                },
                _ => SelectionRead::at(total, selected, index + 1),
            },
            Ask::Part { index, .. } => {
                let mut selected = selected;
                if let Reply::Text(Some(t)) = reply {
                    selected.append(&t);
                }
                SelectionRead::at(total, selected, index + 1)
            },
            Ask::Size => match reply {
                Reply::Number(Some(count)) if 0 < count && count <= MAX_CONTENTS => {
                    SelectionRead { ask: Ask::Whole { count }, total, selected, result }
                },
                _ => SelectionRead::with_contents(total, selected, String::new()),
            },
            Ask::Whole { .. } => match reply {
                Reply::Text(Some(t)) => SelectionRead::with_contents(total, selected, t),
                _ => SelectionRead::with_contents(total, selected, String::new()),
            },
            Ask::Done => SelectionRead { ask, total, selected, result },
        }
    }

    /// What was read, once nothing is left to ask.
    pub fn into_result(self) -> (r: Option<Selection>)
        ensures
            selection_view(r) == self@.result,
    {
        self.result
    }
}

/// What the whole reading comes to. `probed` is missing where it took too long, and
/// an error where the bus could not be reached.
pub fn get_selection(probed: Option<Result<Option<Selection>, String>>) -> (r: Result<
    Option<Selection>,
    String,
>)
    ensures
        match probed {
            Some(p) => r == p,
            None => r matches Err(e) && e@ == "AT-SPI probe timed out"@,
        },
{
    match probed {
        Some(p) => p,
        None => Err("AT-SPI probe timed out".to_owned()),
    }
}

// ---------------------------------------------------------------------------
// What is read of an object
// ---------------------------------------------------------------------------

/// An object with a text: what it answers.
pub struct TextObject {
    pub count: Option<i32>,
    pub range: spec_fn(i32) -> Option<(i32, i32)>,
    pub text: spec_fn(i32, i32) -> Option<Seq<char>>,
    pub size: Option<i32>,
}

impl TextObject {
    /// What the object answers.
    pub open spec fn reply(self, ask: Ask) -> ReplyView {
        match ask {
            Ask::Count => ReplyView::Number(self.count),
            Ask::Range { index } => ReplyView::Range((self.range)(index)),
            Ask::Part { start, end, .. } => ReplyView::Text((self.text)(start, end)),
            Ask::Size => ReplyView::Number(self.size),
            Ask::Whole { count } => ReplyView::Text((self.text)(0, count)),
            Ask::Done => ReplyView::Number(None),
        }
    }

    /// The text between two places, or an empty one where it is not told.
    pub open spec fn part(self, start: i32, end: i32) -> Seq<char> {
        match (self.text)(start, end) {
            Some(t) => t,
            None => Seq::empty(),
        }
    }

    /// The text of the selection `index`, empty where its range is not told or is
    /// empty.
    pub open spec fn selected_at(self, index: i32) -> Seq<char> {
        match (self.range)(index) {
            Some((start, end)) if start < end => self.part(start, end),
            _ => Seq::empty(),
        }
    }

    /// The texts of the selections from `index` on, one behind the other.
    pub open spec fn selected_from(self, index: int, total: int) -> Seq<char>
        decreases total - index,
    {
        if index >= total {
            Seq::empty()
        } else {
            self.selected_at(index as i32) + self.selected_from(index + 1, total)
        }
    }

    /// The whole text, where it is not too long and told.
    pub open spec fn contents(self) -> Seq<char> {
        match self.size {
            Some(count) if 0 < count <= MAX_CONTENTS => self.part(0, count),
            _ => Seq::empty(),
        }
    }

    /// What is read of the object: the texts of all its selections, unless they
    /// are empty.
    pub open spec fn selection(self) -> Option<SelectionView> {
        match self.count {
            Some(n) if n > 0 && self.selected_from(0, n as int).len() > 0 => Some(
                SelectionView {
                    selected_text: self.selected_from(0, n as int),
                    contents: self.contents(),
                    before_text: Seq::empty(),
                    after_text: Seq::empty(),
                },
            ),
            _ => None,
        }
    }
}

/// How far a reading is from its end.
pub open spec fn to_go(v: ReadView) -> int {
    match v.ask {
        Ask::Count => 0x2_0000_0000,
        Ask::Range { index } => 2 * (v.total - index) + 3,
        Ask::Part { index, .. } => 2 * (v.total - index) + 2,
        Ask::Size => 2,
        Ask::Whole { .. } => 1,
        Ask::Done => 0,
    }
}

/// What a reading comes to where `obj` answers every question that is left.
pub open spec fn read_through(v: ReadView, obj: TextObject) -> Option<SelectionView>
    decreases to_go(v),
    when v.wf()
{
    if v.ask is Done {
        v.result
    } else {
        read_through(v.after(obj.reply(v.ask)), obj)
    }
}

proof fn lemma_read_through(v: ReadView, obj: TextObject)
    requires
        v.wf(),
        v.ask is Range || v.ask is Part,
    ensures
        ({
            let index = match v.ask {
                Ask::Range { index } => index as int,
                Ask::Part { index, .. } => index as int,
                _ => 0,
            };
            let first = match v.ask {
                Ask::Part { start, end, .. } => obj.part(start, end),
                _ => obj.selected_at(index as i32),
            };
            let all = v.selected + (first + obj.selected_from(index + 1, v.total as int));
            read_through(v, obj) == if all.len() == 0 {
                None
            } else {
                Some(
                    SelectionView {
                        selected_text: all,
                        contents: obj.contents(),
                        before_text: Seq::empty(),
                        after_text: Seq::empty(),
                    },
                )
            }
        }),
    decreases to_go(v),
{
    let next = v.after(obj.reply(v.ask));
    if next.ask is Range || next.ask is Part {
        lemma_read_through(next, obj);
        match v.ask {
            Ask::Range { index } => {
                if next.ask is Range {
                    assert(v.selected + (obj.selected_at(index) + obj.selected_from(
                        index + 1,
                        v.total as int,
                    )) =~= next.selected + (obj.selected_at((index + 1) as i32) + obj.selected_from(
                        index + 2,
                        v.total as int,
                    )));
                }
            },
            Ask::Part { index, start, end } => {
                assert(v.selected + (obj.part(start, end) + obj.selected_from(
                    index + 1,
                    v.total as int,
                )) =~= next.selected + (obj.selected_at((index + 1) as i32) + obj.selected_from(
                    index + 2,
                    v.total as int,
                )));
            },
            _ => {},
        }
    } else {
        match v.ask {
            Ask::Range { index } => {
                assert(v.selected + (obj.selected_at(index) + obj.selected_from(
                    index + 1,
                    v.total as int,
                )) =~= v.selected);
            },
            Ask::Part { index, start, end } => {
                assert(v.selected + (obj.part(start, end) + obj.selected_from(
                    index + 1,
                    v.total as int,
                )) =~= next.selected);
            },
            _ => {},
        }
        reveal_with_fuel(read_through, 4);
    }
}

/// A reading finds what the object's answers hold: the texts of all its selections
/// in order, and its whole text where that is not too long.
pub proof fn law_reading_finds_the_selection(obj: TextObject)
    ensures
        read_through(ReadView::start(), obj) == obj.selection(),
{
    let v = ReadView::start();
    let next = v.after(obj.reply(v.ask));
    reveal_with_fuel(read_through, 2);
    match obj.count {
        Some(n) if n > 0 => {
            lemma_read_through(next, obj);
            assert(v.selected + (obj.selected_at(0) + obj.selected_from(1, n as int))
                =~= obj.selected_from(0, n as int));
        },
        _ => {},
    }
}

/// Every answer brings a reading nearer to its end.
pub proof fn law_reading_ends(v: ReadView, reply: ReplyView)
    requires
        v.wf(),
        !(v.ask is Done),
    ensures
        v.after(reply).wf(),
        0 <= to_go(v.after(reply)) < to_go(v),
{
}

/// What is read is never empty.
pub proof fn law_selection_is_not_empty(obj: TextObject)
    ensures
        obj.selection() matches Some(s) ==> s.selected_text.len() > 0,
{
}

// ---------------------------------------------------------------------------
// Questions, one by one
// ---------------------------------------------------------------------------

/// The questions follow from the answers: where there are selections each is asked for
/// its range, in order, and a range that is not empty for exactly its text; then the size
/// is asked, and the whole text where the object has at most 100000 characters.
pub proof fn law_questions_follow_from_answers(v: ReadView, n: i32, start: i32, end: i32)
    requires
        v.wf(),
    ensures
        v.ask is Count && n > 0 ==> v.after(ReplyView::Number(Some(n))).ask == (Ask::Range { index: 0 })
            && v.after(ReplyView::Number(Some(n))).total == n,
        v.ask is Count && n <= 0 ==> v.after(ReplyView::Number(Some(n))).ask is Done,
        v.ask is Count ==> v.after(ReplyView::Number(None)).ask is Done,
        v.ask matches Ask::Range { index } ==> start < end ==> v.after(
            ReplyView::Range(Some((start, end))),
        ).ask == (Ask::Part { index, start, end }),
        v.ask matches Ask::Range { index } ==> index + 1 < v.total ==> v.after(
            ReplyView::Range(None),
        ).ask == (Ask::Range { index: (index + 1) as i32 }) && (start >= end ==> v.after(
            ReplyView::Range(Some((start, end))),
        ).ask == (Ask::Range { index: (index + 1) as i32 })),
        v.ask is Size && 0 < n <= 100_000 ==> v.after(ReplyView::Number(Some(n))).ask == (Ask::Whole {
            count: n,
        }),
        v.ask is Size && !(0 < n <= 100_000) ==> v.after(ReplyView::Number(Some(n))).ask is Done,
        v.ask is Size ==> v.after(ReplyView::Number(None)).ask is Done,
{
}

/// Every text that is answered is read behind those before it, and behind the last
/// selection the size is asked, unless nothing was read.
pub proof fn law_texts_are_read_one_behind_the_other(v: ReadView, t: Seq<char>)
    requires
        v.wf(),
        v.ask is Part,
    ensures
        v.after(ReplyView::Text(Some(t))).selected == v.selected + t,
        v.after(ReplyView::Text(None)).selected == v.selected,
        v.ask matches Ask::Part { index, .. } ==> index + 1 < v.total ==> v.after(
            ReplyView::Text(Some(t)),
        ).ask == (Ask::Range { index: (index + 1) as i32 }),
        v.ask matches Ask::Part { index, .. } ==> index + 1 == v.total ==> if (v.selected + t).len()
            > 0 {
            v.after(ReplyView::Text(Some(t))).ask is Size
        } else {
            v.after(ReplyView::Text(Some(t))).ask is Done && v.after(
                ReplyView::Text(Some(t)),
            ).result is None
        },
{
    assert(v.selected + Seq::<char>::empty() =~= v.selected);
}

/// A reading ends with the text that was read, and the whole text where that was
/// answered.
pub proof fn law_reading_ends_with_what_was_read(v: ReadView, t: Seq<char>)
    ensures
        v.ask is Whole ==> v.after(ReplyView::Text(Some(t))).result == Some(
            SelectionView {
                selected_text: v.selected,
                contents: t,
                before_text: Seq::empty(),
                after_text: Seq::empty(),
            },
        ),
        v.ask is Whole || v.ask is Size ==> v.after(ReplyView::Text(None)).result == Some(
            SelectionView {
                selected_text: v.selected,
                contents: Seq::empty(),
                before_text: Seq::empty(),
                after_text: Seq::empty(),
            },
        ),
{
}

/// A reading begins with nothing.
pub proof fn law_reading_begins_with_nothing()
    ensures
        ReadView::start().ask is Count,
        ReadView::start().selected.len() == 0,
        ReadView::start().result is None,
{
}

proof fn lemma_selected_from(obj: TextObject, index: int, total: int)
    requires
        0 <= index <= total,
    ensures
        obj.selected_from(index, total) == Seq::new(
            (total - index) as nat,
            |i: int| obj.selected_at((index + i) as i32),
        ).flatten(),
    decreases total - index,
{
    let parts = Seq::new((total - index) as nat, |i: int| obj.selected_at((index + i) as i32));
    if index < total {
        lemma_selected_from(obj, index + 1, total);
        let rest = Seq::new(
            (total - index - 1) as nat,
            |i: int| obj.selected_at((index + 1 + i) as i32),
        );
        assert(parts.drop_first() =~= rest);
        assert(parts.flatten() == parts.first() + parts.drop_first().flatten());
    } else {
        assert(parts.flatten() =~= Seq::empty());
    }
}

/// What is read of an object is the texts of all its selections with a range that is not
/// empty, one behind the other, and its whole text where it has 1 to 100000 characters;
/// nothing, where the selections hold no text.
pub proof fn law_selection_holds_every_part(obj: TextObject, n: i32)
    requires
        obj.count == Some(n),
        n > 0,
    ensures
        ({
            let all = Seq::new(
                n as nat,
                |i: int|
                    match (obj.range)(i as i32) {
                        Some((start, end)) => if start < end {
                            match (obj.text)(start, end) {
                                Some(t) => t,
                                None => Seq::empty(),
                            }
                        } else {
                            Seq::empty()
                        },
                        None => Seq::empty(),
                    },
            ).flatten();
            &&& all.len() == 0 <==> obj.selection() is None
            &&& obj.selection() matches Some(s) ==> s.selected_text == all && s.before_text.len() == 0
                && s.after_text.len() == 0 && s.contents == match obj.size {
                Some(c) => if 0 < c <= 100_000 {
                    match (obj.text)(0, c) {
                        Some(t) => t,
                        None => Seq::empty(),
                    }
                } else {
                    Seq::empty()
                },
                None => Seq::empty(),
            }
        }),
{
    let parts = Seq::new(
        n as nat,
        |i: int|
            match (obj.range)(i as i32) {
                Some((start, end)) => if start < end {
                    match (obj.text)(start, end) {
                        Some(t) => t,
                        None => Seq::empty(),
                    }
                } else {
                    Seq::empty()
                },
                None => Seq::empty(),
            },
    );
    lemma_selected_from(obj, 0, n as int);
    assert(Seq::new(n as nat, |i: int| obj.selected_at((0 + i) as i32)) =~= parts);
}

/// Without selections nothing is read.
pub proof fn law_no_selection_is_none(obj: TextObject)
    requires
        obj.count is None || obj.count->Some_0 <= 0,
    ensures
        obj.selection() is None,
{
}

/// An object answers each question with what it has: a part with the text between its
/// ends, the whole with the text from the start.
pub proof fn law_object_answers_what_is_asked(obj: TextObject, index: i32, start: i32, end: i32)
    ensures
        obj.reply(Ask::Count) == ReplyView::Number(obj.count),
        obj.reply(Ask::Range { index }) == ReplyView::Range((obj.range)(index)),
        obj.reply(Ask::Part { index, start, end }) == ReplyView::Text((obj.text)(start, end)),
        obj.reply(Ask::Size) == ReplyView::Number(obj.size),
        obj.reply(Ask::Whole { count: end }) == ReplyView::Text((obj.text)(0, end)),
{
}

/// Answers and selections are known by what they hold.
pub proof fn law_reply_views_tell_all(r: Reply, s: Option<Selection>)
    ensures
        match r {
            Reply::Number(n) => r@ == ReplyView::Number(n),
            Reply::Range(x) => r@ == ReplyView::Range(x),
            Reply::Text(Some(t)) => r@ == ReplyView::Text(Some(t@)),
            Reply::Text(None) => r@ == ReplyView::Text(None),
        },
        match s {
            Some(x) => selection_view(s) == Some(x@),
            None => selection_view(s) is None,
        },
{
}

} // verus!
