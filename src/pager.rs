//! The navigation session over a built catalog: rendering one page with its
//! controls, decoding control events, and the session's state machine.
use crate::catalog::Page;
use crate::text::{
    decimal, decimal_string, is_digit, lemma_decimal_parses_back, lemma_decimal_round_trip,
    parse_index, parsed_index, signed_decimal, IndexError,
};
use vstd::prelude::*;

verus! {

/// Identifier of the control that ends the session.
pub const CANCEL_ID: &'static str = "hnav:cancel";

/// Identifier of the category select control.
pub const SELECT_ID: &'static str = "hnav:selectmenu";

/// Prefix of every control identifier of the session.
pub const ID_PREFIX: &'static str = "hnav:";

/// The message that shows a session.
#[derive(Clone, Copy, Debug, PartialEq, Eq, Structural)]
pub struct MsgInfo {
    pub channel_id: u64,
    pub message_id: u64,
}

/// One entry of the category select control.
pub struct SelectOption {
    pub label: String,
    pub value: String,
}

/// Everything that one rendered page shows: title, text, the Previous and
/// Next buttons, and the category select control.
pub struct PageView {
    pub title: String,
    pub body: String,
    pub previous_id: String,
    pub next_id: String,
    pub previous_disabled: bool,
    pub next_disabled: bool,
    pub options: Vec<SelectOption>,
}

pub open spec fn page_title(category: Seq<char>, index: int) -> Seq<char> {
    category + " (Page "@ + decimal((index + 1) as nat) + ")"@
}

pub open spec fn option_label(category: Seq<char>, current: bool) -> Seq<char> {
    if current {
        category + " (current)"@
    } else {
        category
    }
}

/// `v` is page `index` of `pages`, with its controls.
pub open spec fn renders(v: PageView, pages: Seq<Page>, index: int) -> bool {
    &&& 0 <= index < pages.len()
    &&& v.title@ == page_title(pages[index].category@, index)
    &&& v.body@ == pages[index].body@
    &&& v.previous_id@ == ID_PREFIX@ + signed_decimal(index - 1)
    &&& v.next_id@ == ID_PREFIX@ + decimal((index + 1) as nat)
    &&& v.previous_disabled == (index == 0)
    &&& v.next_disabled == (index == pages.len() - 1)
    &&& v.options@.len() == pages.len()
    &&& forall|i: int|
        0 <= i < pages.len() ==> (#[trigger] v.options@[i]).label@ == option_label(pages[i].category@, i == index)
            && v.options@[i].value@ == decimal(i as nat)
}

/// Renders page `index` of `pages` with its controls.
pub fn render_page(pages: &Vec<Page>, index: usize) -> (v: PageView)
    requires
        index < pages.len(),
    ensures
        renders(v, pages@, index as int),
{
    let page = &pages[index];
    let mut title = page.category.clone();
    title.append(" (Page ");
    let number = decimal_string(index + 1);
    title.append(number.as_str());
    title.append(")");

    let mut previous_id = String::from_str(ID_PREFIX);
    if index == 0 {
        previous_id.append("-");
        let one = decimal_string(1);
        previous_id.append(one.as_str());
        proof {
            reveal_strlit("-");
        }
        assert(previous_id@ =~= ID_PREFIX@ + signed_decimal(index - 1));
    } else {
        let p = decimal_string(index - 1);
        previous_id.append(p.as_str());
    }
    let mut next_id = String::from_str(ID_PREFIX);
    next_id.append(number.as_str());

    let mut options: Vec<SelectOption> = Vec::new();
    let mut i: usize = 0;
    while i < pages.len()
        invariant
            i <= pages.len(),
            index < pages.len(),
            options@.len() == i,
            forall|j: int|
                0 <= j < i ==> (#[trigger] options@[j]).label@ == option_label(pages@[j].category@, j == index)
                    && options@[j].value@ == decimal(j as nat),
        decreases pages.len() - i,
    {
        let mut label = pages[i].category.clone();
        if i == index {
            label.append(" (current)");
        }
        let value = decimal_string(i);
        options.push(SelectOption { label, value });
        i = i + 1;
    }
    PageView {
        title,
        body: page.body.clone(),
        previous_id,
        next_id,
        previous_disabled: index == 0,
        next_disabled: index == pages.len() - 1,
        options,
    }
}

/// A control event of the session: the control's identifier and, for a
/// string select, the values chosen (`None` for any other kind of control).
pub struct NavEvent {
    pub custom_id: String,
    pub selected: Option<Vec<String>>,
}

/// What a control event asks for.
#[derive(Clone, Copy, Debug, PartialEq, Eq, Structural)]
pub enum Nav {
    Cancel,
    Goto(usize),
}

/// Failures of a help session.
#[derive(Clone, Copy, Debug, PartialEq, Eq, Structural)]
pub enum HelpError {
    /// The catalog has no page to show.
    NoPages,
    /// The control identifier is not one of the session's.
    UnknownControl,
    /// The select control reported data that is not a string selection.
    NotAStringSelect,
    /// The select control reported no chosen value.
    NoValueSelected,
    /// The page index is not an integer.
    NotANumber,
    /// The page index names no page.
    OutOfRange,
}

pub open spec fn index_error(e: IndexError) -> HelpError {
    match e {
        IndexError::NotANumber => HelpError::NotANumber,
        IndexError::OutOfRange => HelpError::OutOfRange,
    }
}

pub open spec fn target_of(s: Seq<char>, count: nat) -> Result<Nav, HelpError> {
    match parsed_index(s, count) {
        Ok(i) => Ok(Nav::Goto(i)),
        Err(e) => Err(index_error(e)),
    }
}

pub open spec fn has_prefix(s: Seq<char>, p: Seq<char>) -> bool {
    p.len() <= s.len() && s.take(p.len() as int) == p
}

/// What the event with identifier `id` and chosen values `selected` asks of
/// a session over `count` pages.
pub open spec fn decoded(id: Seq<char>, selected: Option<Seq<Seq<char>>>, count: nat) -> Result<Nav, HelpError> {
    if id == CANCEL_ID@ {
        Ok(Nav::Cancel)
    } else if id == SELECT_ID@ {
        match selected {
            None => Err(HelpError::NotAStringSelect),
            Some(v) => if v.len() == 0 {
                Err(HelpError::NoValueSelected)
            } else {
                target_of(v[0], count)
            },
        }
    } else if has_prefix(id, ID_PREFIX@) {
        target_of(id.skip(ID_PREFIX@.len() as int), count)
    } else {
        Err(HelpError::UnknownControl)
    }
}

fn target_from(s: &str, count: usize) -> (r: Result<Nav, HelpError>)
    ensures
        r == target_of(s@, count as nat),
{
    match parse_index(s, count) {
        Ok(i) => Ok(Nav::Goto(i)),
        Err(IndexError::NotANumber) => Err(HelpError::NotANumber),
        Err(IndexError::OutOfRange) => Err(HelpError::OutOfRange),
    }
}

/// Decodes a control event of a session over `count` pages.
pub fn decode_event(event: &NavEvent, count: usize) -> (r: Result<Nav, HelpError>)
    ensures
        r == decoded(event.custom_id@, event.selected.deep_view(), count as nat),
{
    let id = &event.custom_id;
    if *id == String::from_str(CANCEL_ID) {
        return Ok(Nav::Cancel);
    }
    if *id == String::from_str(SELECT_ID) {
        return match &event.selected {
            None => Err(HelpError::NotAStringSelect),
            Some(values) => {
                if values.len() == 0 {
                    Err(HelpError::NoValueSelected)
                } else {
                    assert(event.selected.deep_view()->0[0] == values[0]@);
                    target_from(values[0].as_str(), count)
                }
            },
        };
    }
    let len = id.as_str().unicode_len();
    let plen = ID_PREFIX.unicode_len();
    if plen <= len {
        let head = id.as_str().substring_char(0, plen);
        if String::from_str(head) == String::from_str(ID_PREFIX) {
            let rest = id.as_str().substring_char(plen, len);
            assert(rest@ =~= id@.skip(plen as int));
            return target_from(rest, count);
        }
        assert(id@.take(plen as int) =~= head@);
    }
    Err(HelpError::UnknownControl)
}

/// Where a session stands.
#[derive(Clone, Copy, Debug, PartialEq, Eq, Structural)]
pub enum Phase {
    Showing,
    Cancelled,
    Closed,
    Failed,
}

/// A navigation session: the page shown, the message that shows it, and
/// where the session stands.
#[derive(Clone, Copy, Debug, PartialEq, Eq, Structural)]
pub struct Pager {
    pub page_count: usize,
    pub index: usize,
    pub message: MsgInfo,
    pub phase: Phase,
}

/// What the session asks of the messaging side after an event.
pub enum Step {
    /// Edit the session's message in place to show `view`.
    Edit { target: MsgInfo, view: PageView },
    /// Delete the session's message.
    Delete { target: MsgInfo },
    /// End the session with an error, leaving the message as it is.
    Fail(HelpError),
}

impl Pager {
    pub open spec fn wf(&self) -> bool {
        1 <= self.page_count && self.index < self.page_count
    }

    pub open spec fn is_terminal(&self) -> bool {
        self.phase != Phase::Showing
    }

    /// The session after an event with identifier `id` and chosen values
    /// `selected`.
    pub open spec fn after(self, id: Seq<char>, selected: Option<Seq<Seq<char>>>) -> Pager {
        match decoded(id, selected, self.page_count as nat) {
            Ok(Nav::Cancel) => Pager { phase: Phase::Cancelled, ..self },
            Ok(Nav::Goto(t)) => Pager { index: t, ..self },
            Err(_) => Pager { phase: Phase::Failed, ..self },
        }
    }

    /// The session once its event source has ended.
    pub open spec fn closed(self) -> Pager {
        Pager { phase: Phase::Closed, ..self }
    }

    /// Starts a session over `page_count` pages whose first page is shown
    /// by `message`.
    pub fn new(page_count: usize, message: MsgInfo) -> (p: Pager)
        requires
            page_count >= 1,
        ensures
            p.wf(),
            p == (Pager { page_count, index: 0, message, phase: Phase::Showing }),
    {
        Pager { page_count, index: 0, message, phase: Phase::Showing }
    }

    /// The page that opens a session over `pages`; there is none when the
    /// catalog is empty.
    pub fn first_page(pages: &Vec<Page>) -> (r: Result<PageView, HelpError>)
        ensures
            pages.len() == 0 ==> r == Err::<PageView, HelpError>(HelpError::NoPages),
            pages.len() > 0 ==> r is Ok && renders(r->Ok_0, pages@, 0),
    {
        if pages.len() == 0 {
            Err(HelpError::NoPages)
        } else {
            Ok(render_page(pages, 0))
        }
    }

    /// Handles one control event: the session moves to the page asked for
    /// and edits its own message, or ends on Cancel or on a bad event.
    pub fn handle(&mut self, pages: &Vec<Page>, event: &NavEvent) -> (s: Step)
        requires
            old(self).wf(),
            !old(self).is_terminal(),
            pages.len() == old(self).page_count,
        ensures
            final(self).wf(),
            *final(self) == old(self).after(event.custom_id@, event.selected.deep_view()),
            match decoded(event.custom_id@, event.selected.deep_view(), old(self).page_count as nat) {
                Ok(Nav::Cancel) => s == (Step::Delete { target: old(self).message }),
                Ok(Nav::Goto(t)) => s matches Step::Edit { target, view }
                    && target == old(self).message && renders(view, pages@, t as int),
                Err(e) => s == Step::Fail(e),
            },
    {
        match decode_event(event, self.page_count) {
            Ok(Nav::Cancel) => {
                self.phase = Phase::Cancelled;
                Step::Delete { target: self.message }
            },
            Ok(Nav::Goto(t)) => {
                self.index = t;
                Step::Edit { target: self.message, view: render_page(pages, t) }
            },
            Err(e) => {
                self.phase = Phase::Failed;
                Step::Fail(e)
            },
        }
    }

    /// Ends the session when its event source has no more events; the page
    /// last shown stays as it is.
    pub fn close(&mut self)
        requires
            old(self).wf(),
            !old(self).is_terminal(),
        ensures
            *final(self) == old(self).closed(),
    {
        self.phase = Phase::Closed;
    }

    /// Whether the session has ended.
    pub fn is_finished(&self) -> (r: bool)
        ensures
            r == self.is_terminal(),
    {
        self.phase != Phase::Showing
    }
}

/// A control event as the session's contract sees it: identifier and chosen
/// values.
pub type EventModel = (Seq<char>, Option<Seq<Seq<char>>>);

/// The session after `events`, in order; events that arrive once the session
/// has ended change nothing.
pub open spec fn run(p: Pager, events: Seq<EventModel>) -> Pager
    decreases events.len(),
{
    if events.len() == 0 {
        p
    } else {
        let q = run(p, events.drop_last());
        if q.is_terminal() {
            q
        } else {
            q.after(events.last().0, events.last().1)
        }
    }
}

/// The session after `events` and the end of its event source.
pub open spec fn finish(p: Pager, events: Seq<EventModel>) -> Pager {
    let q = run(p, events);
    if q.is_terminal() {
        q
    } else {
        q.closed()
    }
}

/// Through any run of events a session keeps a valid page index over the
/// same page count, and keeps showing itself in the one message it started
/// with: every edit it asks for targets that message.
pub proof fn lemma_session_keeps_target(p: Pager, events: Seq<EventModel>)
    requires
        p.wf(),
    ensures
        run(p, events).wf(),
        run(p, events).page_count == p.page_count,
        run(p, events).message == p.message,
    decreases events.len(),
{
    if events.len() > 0 {
        lemma_session_keeps_target(p, events.drop_last());
    }
}

/// Once a session has ended, later events leave it as it is.
pub proof fn lemma_ended_session_stays(p: Pager, events: Seq<EventModel>, more: Seq<EventModel>)
    requires
        run(p, events).is_terminal(),
    ensures
        run(p, events + more) == run(p, events),
    decreases more.len(),
{
    if more.len() == 0 {
        assert(events + more =~= events);
    } else {
        assert((events + more).drop_last() =~= events + more.drop_last());
        lemma_ended_session_stays(p, events, more.drop_last());
    }
}

/// Every session ends: whatever events arrive, once the event source is
/// over the session is cancelled, closed or failed, still on its own
/// message, and events after its end change nothing.
pub proof fn lemma_session_ends(p: Pager, events: Seq<EventModel>, more: Seq<EventModel>)
    requires
        p.wf(),
    ensures
        finish(p, events).is_terminal(),
        finish(p, events).message == p.message,
        run(p, events).is_terminal() ==> run(p, events + more) == run(p, events),
{
    lemma_session_keeps_target(p, events);
    if run(p, events).is_terminal() {
        lemma_ended_session_stays(p, events, more);
    }
}

proof fn lemma_button_id_decodes(k: usize, count: nat, selected: Option<Seq<Seq<char>>>)
    requires
        k < count,
    ensures
        decoded(ID_PREFIX@ + decimal(k as nat), selected, count) == Ok::<Nav, HelpError>(Nav::Goto(k)),
{
    reveal_strlit("hnav:");
    reveal_strlit("hnav:cancel");
    reveal_strlit("hnav:selectmenu");
    lemma_decimal_round_trip(k as nat);
    lemma_decimal_parses_back(k, count);
    let d = decimal(k as nat);
    let id = ID_PREFIX@ + d;
    assert(is_digit(d[0]));
    assert(id[5] == d[0]);
    assert(CANCEL_ID@[5] == 'c');
    assert(SELECT_ID@[5] == 's');
    assert(id != CANCEL_ID@);
    assert(id != SELECT_ID@);
    assert(id.take(5) =~= ID_PREFIX@);
    assert(id.skip(5) =~= d);
}

/// Each control of a rendered page leads where it says: choosing option `i`
/// of the select control shows page `i`, Next shows the following page and
/// Previous the preceding one, whenever that page exists.
pub proof fn lemma_controls_lead_where_they_say(v: PageView, pages: Seq<Page>, index: int, i: int)
    requires
        renders(v, pages, index),
        0 <= i < pages.len(),
        pages.len() <= usize::MAX,
    ensures
        decoded(SELECT_ID@, Some(seq![v.options@[i].value@]), pages.len()) == Ok::<Nav, HelpError>(
            Nav::Goto(i as usize),
        ),
        index + 1 < pages.len() ==> decoded(v.next_id@, None, pages.len()) == Ok::<Nav, HelpError>(
            Nav::Goto((index + 1) as usize),
        ),
        index >= 1 ==> decoded(v.previous_id@, None, pages.len()) == Ok::<Nav, HelpError>(
            Nav::Goto((index - 1) as usize),
        ),
{
    reveal_strlit("hnav:cancel");
    reveal_strlit("hnav:selectmenu");
    assert(SELECT_ID@ != CANCEL_ID@) by {
        assert(SELECT_ID@[5] != CANCEL_ID@[5]);
    }
    assert(v.options@[i].value@ == decimal(i as nat));
    lemma_decimal_parses_back(i as usize, pages.len());
    assert(seq![v.options@[i].value@][0] == decimal(i as nat));
    if index + 1 < pages.len() {
        lemma_button_id_decodes((index + 1) as usize, pages.len(), None);
    }
    if index >= 1 {
        lemma_button_id_decodes((index - 1) as usize, pages.len(), None);
    }
}

} // verus!
