//! One file's way into the weights cache, as a state machine.
//!
//! Whoever performs the transfer does what the stage says and reports how it went;
//! what comes next is decided here.

use vstd::prelude::*;

use crate::text::decimal;
use crate::text::joined;
use crate::text::parse_u64;

verus! {

/// What is to be done next.
#[derive(Clone, Copy, Debug, PartialEq, Eq, Structural)]
pub enum Stage {
    /// Create the destination's parent directory.
    Parent,
    /// Send the request.
    Request,
    /// Create the scratch file.
    Create,
    /// Read the next piece of the body.
    Read,
    /// Write the piece of this many bytes to the scratch file.
    Write(usize),
    /// Flush the scratch file.
    Flush,
    /// Rename the scratch file to the destination.
    Rename,
    /// Nothing: the file is in place.
    Done,
    /// Nothing: the transfer failed.
    Failed,
}

/// How it went.
pub enum Outcome {
    /// It was done.
    Done,
    /// It could not be done.
    Failed,
    /// The server answered with this status and, if it sent one, this content
    /// length.
    Response { status: u16, length: Option<String> },
    /// The server refused with this status and reason.
    Refused { status: u16, reason: String },
    /// This many bytes were read; none at the end of the body.
    Read(usize),
}

/// Why a response was not taken.
pub enum Rejection {
    /// The server refused.
    Refused { status: u16, reason: String },
    /// The server answered with something other than the file.
    Unexpected { status: u16 },
}

/// A transfer under way.
pub struct Transfer {
    pub stage: Stage,
    /// Bytes written so far.
    pub received: u64,
    /// Bytes there are to come in all, if the server said so.
    pub total: Option<u64>,
    /// Why the response was not taken, if it was not.
    pub rejection: Option<Rejection>,
}

/// The content length that the server announced, if it is a number.
pub open spec fn announced(length: Option<String>) -> Option<u64> {
    match length {
        Some(text) => if crate::text::is_number(text@, u64::MAX as int) {
            Some(crate::text::digits_value(crate::text::unsigned_part(text@)) as u64)
        } else {
            None
        },
        None => None,
    }
}

/// The stage after an outcome.
pub open spec fn next_stage(stage: Stage, outcome: Outcome) -> Stage {
    match (stage, outcome) {
        (Stage::Parent, Outcome::Done) => Stage::Request,
        (Stage::Request, Outcome::Response { status, .. }) => if status == 200 {
            Stage::Create
        } else {
            Stage::Failed
        },
        (Stage::Create, Outcome::Done) => Stage::Read,
        (Stage::Read, Outcome::Read(n)) => if n == 0 {
            Stage::Flush
        } else {
            Stage::Write(n)
        },
        (Stage::Write(_), Outcome::Done) => Stage::Read,
        (Stage::Flush, Outcome::Done) => Stage::Rename,
        (Stage::Rename, Outcome::Done) => Stage::Done,
        (Stage::Done, _) => Stage::Done,
        _ => Stage::Failed,
    }
}

/// The bytes written after an outcome; as many as can be counted.
pub open spec fn received_next(stage: Stage, received: int, outcome: Outcome) -> int {
    match (stage, outcome) {
        (Stage::Write(n), Outcome::Done) => crate::tiling::min2(received + n, u64::MAX as int),
        _ => received,
    }
}

/// The bytes there are to come in all after an outcome, if the server said so.
pub open spec fn total_next(stage: Stage, total: Option<u64>, outcome: Outcome) -> Option<u64> {
    match (stage, outcome) {
        (Stage::Request, Outcome::Response { status, length }) => if status == 200 {
            announced(length)
        } else {
            total
        },
        _ => total,
    }
}

/// Why the response was not taken after an outcome, if it was not.
pub open spec fn rejection_next(
    stage: Stage,
    rejection: Option<Rejection>,
    outcome: Outcome,
) -> Option<Rejection> {
    match (stage, outcome) {
        (Stage::Request, Outcome::Response { status, .. }) => if status == 200 {
            rejection
        } else {
            Some(Rejection::Unexpected { status })
        },
        (Stage::Request, Outcome::Refused { status, reason }) => Some(
            Rejection::Refused { status, reason },
        ),
        _ => rejection,
    }
}

impl Transfer {
    /// A transfer that has not begun; `has_parent` says whether the destination has
    /// a parent directory.
    pub fn start(has_parent: bool) -> (transfer: Transfer)
        ensures
            transfer.stage == if has_parent { Stage::Parent } else { Stage::Request },
            transfer.received == 0,
            transfer.total is None,
            transfer.rejection is None,
    {
        Transfer {
            stage: if has_parent { Stage::Parent } else { Stage::Request },
            received: 0,
            total: None,
            rejection: None,
        }
    }

    /// Takes in how the current stage went.
    pub fn advance(&mut self, outcome: Outcome)
        ensures
            final(self).stage == next_stage(old(self).stage, outcome),
            final(self).received == received_next(
                old(self).stage,
                old(self).received as int,
                outcome,
            ),
            final(self).total == total_next(old(self).stage, old(self).total, outcome),
            final(self).rejection == rejection_next(
                old(self).stage,
                old(self).rejection,
                outcome,
            ),
    {
        match (self.stage, outcome) {
            (Stage::Parent, Outcome::Done) => {
                self.stage = Stage::Request;
            },
            (Stage::Request, Outcome::Response { status, length }) => {
                if status == 200 {
                    self.total = match length {
                        Some(text) => parse_u64(text.as_str()),
                        None => None,
                    };
                    self.stage = Stage::Create;
                } else {
                    self.rejection = Some(Rejection::Unexpected { status });
                    self.stage = Stage::Failed;
                }
            },
            (Stage::Request, Outcome::Refused { status, reason }) => {
                self.rejection = Some(Rejection::Refused { status, reason });
                self.stage = Stage::Failed;
            },
            (Stage::Create, Outcome::Done) => {
                self.stage = Stage::Read;
            },
            (Stage::Read, Outcome::Read(n)) => {
                self.stage = if n == 0 { Stage::Flush } else { Stage::Write(n) };
            },
            (Stage::Write(n), Outcome::Done) => {
                self.received = self.received.saturating_add(n as u64);
                self.stage = Stage::Read;
            },
            (Stage::Flush, Outcome::Done) => {
                self.stage = Stage::Rename;
            },
            (Stage::Rename, Outcome::Done) => {
                self.stage = Stage::Done;
            },
            (Stage::Done, _) => {},
            _ => {
                self.stage = Stage::Failed;
            },
        }
    }
}

impl Rejection {
    /// The message.
    pub open spec fn wording(&self) -> Seq<char> {
        match self {
            Rejection::Refused { status, reason } => "server returned HTTP "@
                + crate::text::decimal_digits(*status as nat) + " "@ + reason@,
            Rejection::Unexpected { status } => "server returned HTTP "@
                + crate::text::decimal_digits(*status as nat) + " (expected 200)"@,
        }
    }

    /// The message.
    pub fn message(&self) -> (text: String)
        ensures
            text@ == self.wording(),
    {
        match self {
            Rejection::Refused { status, reason } => {
                let digits: String = decimal(*status as u64);
                let mut text: String = joined("server returned HTTP ", digits.as_str());
                text.append(" ");
                text.append(reason.as_str());
                text
            },
            Rejection::Unexpected { status } => {
                let digits: String = decimal(*status as u64);
                let mut text: String = joined("server returned HTTP ", digits.as_str());
                text.append(" (expected 200)");
                text
            },
        }
    }
}

/// The stage after a number of outcomes.
pub open spec fn stage_after(start: Stage, outcomes: Seq<Outcome>) -> Stage
    decreases outcomes.len(),
{
    if outcomes.len() == 0 {
        start
    } else {
        next_stage(stage_after(start, outcomes.drop_last()), outcomes.last())
    }
}

/// A destination is only ever renamed into place after the body was read to its end
/// and everything written was flushed: an interrupted download leaves no file that
/// could be taken for a complete one.
pub proof fn law_rename_only_when_complete(start: Stage, outcomes: Seq<Outcome>)
    requires
        start is Parent || start is Request,
        stage_after(start, outcomes) is Rename,
    ensures
        outcomes.len() >= 2,
        outcomes.last() is Done,
        outcomes[outcomes.len() - 2] == Outcome::Read(0),
        stage_after(start, outcomes.take(outcomes.len() - 2)) is Read,
{
    let n = outcomes.len() as int;
    let one = outcomes.drop_last();
    assert(stage_after(start, one) is Flush);
    assert(one.drop_last() =~= outcomes.take(n - 2));
    assert(one.last() == outcomes[n - 2]);
}

/// The scratch file is only created once the server has answered with the file
/// itself, so that an error page is never written.
pub proof fn law_only_the_file_is_written(start: Stage, outcomes: Seq<Outcome>)
    requires
        start is Parent || start is Request,
        stage_after(start, outcomes) is Create,
    ensures
        outcomes.len() >= 1,
        outcomes.last() matches Outcome::Response { status, .. } && status == 200,
{
    assert(outcomes.len() >= 1);
    let before = stage_after(start, outcomes.drop_last());
}

/// A failed transfer stays failed, and a finished one stays finished.
pub proof fn law_transfer_ends(start: Stage, before: Seq<Outcome>, after: Seq<Outcome>)
    ensures
        stage_after(start, before) is Failed ==> stage_after(start, before + after) is Failed,
        stage_after(start, before) is Done ==> stage_after(start, before + after) is Done,
    decreases after.len(),
{
    if after.len() == 0 {
        assert(before + after =~= before);
    } else {
        law_transfer_ends(start, before, after.drop_last());
        assert((before + after).drop_last() =~= before + after.drop_last());
        assert((before + after).last() == after.last());
    }
}

/// What comes of reading pieces of the given sizes: each is read, then written.
pub open spec fn pieces(sizes: Seq<usize>) -> Seq<Outcome>
    decreases sizes.len(),
{
    if sizes.len() == 0 {
        Seq::empty()
    } else {
        pieces(sizes.drop_last()) + seq![Outcome::Read(sizes.last()), Outcome::Done]
    }
}

/// Going on after some outcomes is starting where they led to.
proof fn lemma_stage_concat(start: Stage, a: Seq<Outcome>, b: Seq<Outcome>)
    ensures
        stage_after(start, a + b) == stage_after(stage_after(start, a), b),
    decreases b.len(),
{
    if b.len() == 0 {
        assert(a + b =~= a);
    } else {
        lemma_stage_concat(start, a, b.drop_last());
        assert((a + b).drop_last() =~= a + b.drop_last());
        assert((a + b).last() == b.last());
    }
}

/// Reading and writing pieces leads back to reading.
proof fn lemma_pieces_read_on(sizes: Seq<usize>)
    requires
        forall|i: int| 0 <= i < sizes.len() ==> #[trigger] sizes[i] > 0,
    ensures
        stage_after(Stage::Read, pieces(sizes)) is Read,
    decreases sizes.len(),
{
    if sizes.len() > 0 {
        let rest = sizes.drop_last();
        lemma_pieces_read_on(rest);
        let two = seq![Outcome::Read(sizes.last()), Outcome::Done];
        lemma_stage_concat(Stage::Read, pieces(rest), two);
        let one = two.drop_last();
        assert(one.drop_last() =~= Seq::empty());
        assert(one.last() == Outcome::Read(sizes.last()));
        assert(sizes[sizes.len() - 1] > 0);
        assert(stage_after(Stage::Read, Seq::empty()) is Read);
        assert(stage_after(Stage::Read, one) is Write);
        assert(stage_after(Stage::Read, two) is Read);
    }
}

/// A transfer in which everything works brings the file into place, in however many
/// pieces it comes: the directory is made, the file itself is answered, the scratch file
/// is created, every piece is read and written, and at the end of the body the scratch
/// file is flushed and renamed.
pub proof fn law_good_transfer_ends_in_place(length: Option<String>, sizes: Seq<usize>)
    requires
        forall|i: int| 0 <= i < sizes.len() ==> #[trigger] sizes[i] > 0,
    ensures
        ({
            let head = seq![
                Outcome::Done,
                Outcome::Response { status: 200, length },
                Outcome::Done,
            ];
            let tail = seq![Outcome::Read(0), Outcome::Done, Outcome::Done];
            &&& stage_after(Stage::Parent, head + pieces(sizes)) is Read
            &&& stage_after(Stage::Parent, head + pieces(sizes) + tail) is Done
            &&& stage_after(Stage::Request, head.drop_first() + pieces(sizes) + tail) is Done
        }),
{
    let head = seq![Outcome::Done, Outcome::Response { status: 200, length }, Outcome::Done];
    let tail = seq![Outcome::Read(0), Outcome::Done, Outcome::Done];
    let late = head.drop_first();
    lemma_pieces_read_on(sizes);
    lemma_stage_concat(Stage::Parent, head, pieces(sizes));
    lemma_stage_concat(Stage::Parent, head + pieces(sizes), tail);
    lemma_stage_concat(Stage::Request, late, pieces(sizes));
    lemma_stage_concat(Stage::Request, late + pieces(sizes), tail);
    lemma_three(Stage::Parent, head);
    lemma_three(Stage::Read, tail);
    assert(late =~= seq![Outcome::Response { status: 200, length }, Outcome::Done]);
    let one = late.drop_last();
    assert(one.drop_last() =~= Seq::empty());
    assert(one.last() == Outcome::Response { status: 200, length });
    assert(stage_after(Stage::Request, Seq::empty()) is Request);
    assert(stage_after(Stage::Request, one) is Create);
    assert(stage_after(Stage::Request, late) is Read);
}

/// Three outcomes, one after the other.
proof fn lemma_three(start: Stage, three: Seq<Outcome>)
    requires
        three.len() == 3,
    ensures
        stage_after(start, three) == next_stage(
            next_stage(next_stage(start, three[0]), three[1]),
            three[2],
        ),
{
    let two = three.drop_last();
    let one = two.drop_last();
    assert(one.drop_last() =~= Seq::empty());
    assert(stage_after(start, Seq::empty()) == start);
    assert(stage_after(start, one) == next_stage(start, one.last()));
    assert(stage_after(start, two) == next_stage(stage_after(start, one), two.last()));
}

/// Any trouble ends a transfer that is not over: a step that could not be done, a
/// refusal, or an answer of another status than 200.
pub proof fn law_trouble_ends_the_transfer(stage: Stage, outcome: Outcome)
    requires
        !(stage is Done),
        outcome is Failed || outcome is Refused || (outcome matches Outcome::Response {
            status,
            ..
        } && status != 200),
    ensures
        next_stage(stage, outcome) is Failed,
{
}

/// What is written is what was read: a write stage is entered only by reading as many
/// bytes, of which there are some.
pub proof fn law_what_is_read_is_written(stage: Stage, outcome: Outcome, n: usize)
    ensures
        next_stage(stage, outcome) == Stage::Write(n) <==> n > 0 && stage is Read && outcome
            == Outcome::Read(n),
{
}

/// An announced length is read as it was written; anything that is not a number, or too
/// large for one, counts as not announced.
pub proof fn law_lengths_are_read(length: Option<String>, n: u64)
    ensures
        length matches Some(text) && text@ == crate::text::decimal_digits(n as nat) ==> announced(
            length,
        ) == Some(n),
        length is None ==> announced(length) is None,
        (length matches Some(text) && !crate::text::all_digits(crate::text::unsigned_part(text@)))
            ==> announced(length) is None,
{
    crate::text::law_written_numbers_are_numbers(n as nat, u64::MAX as int);
}

/// The bytes written after a number of outcomes.
pub open spec fn received_after(start: Stage, outcomes: Seq<Outcome>) -> int
    decreases outcomes.len(),
{
    if outcomes.len() == 0 {
        0
    } else {
        received_next(
            stage_after(start, outcomes.drop_last()),
            received_after(start, outcomes.drop_last()),
            outcomes.last(),
        )
    }
}

/// The sizes together.
pub open spec fn sum_of(sizes: Seq<usize>) -> int
    decreases sizes.len(),
{
    if sizes.len() == 0 {
        0
    } else {
        sum_of(sizes.drop_last()) + sizes.last()
    }
}

/// Every byte is counted: once pieces were read and written, the number of bytes written
/// is that of the pieces together.
pub proof fn law_every_byte_is_counted(length: Option<String>, sizes: Seq<usize>)
    requires
        forall|i: int| 0 <= i < sizes.len() ==> #[trigger] sizes[i] > 0,
        sum_of(sizes) <= u64::MAX,
    ensures
        ({
            let head = seq![
                Outcome::Done,
                Outcome::Response { status: 200, length },
                Outcome::Done,
            ];
            received_after(Stage::Parent, head + pieces(sizes)) == sum_of(sizes)
        }),
    decreases sizes.len(),
{
    let head = seq![Outcome::Done, Outcome::Response { status: 200, length }, Outcome::Done];
    if sizes.len() == 0 {
        assert(head + pieces(sizes) =~= head);
        let two = head.drop_last();
        let one = two.drop_last();
        let none = one.drop_last();
        assert(none.len() == 0);
        assert(received_after(Stage::Parent, none) == 0);
        assert(stage_after(Stage::Parent, none) is Parent);
        assert(received_after(Stage::Parent, one) == 0);
        assert(stage_after(Stage::Parent, one) is Request);
        assert(received_after(Stage::Parent, two) == 0);
        assert(stage_after(Stage::Parent, two) is Create);
    } else {
        let rest = sizes.drop_last();
        lemma_sum_grows(sizes);
        law_every_byte_is_counted(length, rest);
        law_good_transfer_ends_in_place(length, rest);
        let before = head + pieces(rest);
        let read = before.push(Outcome::Read(sizes.last()));
        let all = head + pieces(sizes);
        assert(all =~= read.push(Outcome::Done));
        assert(all.drop_last() =~= read);
        assert(read.drop_last() =~= before);
        assert(sizes[sizes.len() - 1] > 0);
        assert(stage_after(Stage::Parent, before) is Read);
        assert(received_after(Stage::Parent, before) == sum_of(rest));
        assert(stage_after(Stage::Parent, read) == Stage::Write(sizes.last()));
        assert(received_after(Stage::Parent, read) == sum_of(rest));
    }
}

/// Fewer pieces are no larger.
proof fn lemma_sum_grows(sizes: Seq<usize>)
    requires
        sizes.len() > 0,
    ensures
        sum_of(sizes.drop_last()) <= sum_of(sizes),
{
}

/// A transfer goes on in one way only: from each stage to the one after it, and only by
/// the outcome that the stage is there for. Anything else fails it.
pub proof fn law_transfer_goes_one_way(stage: Stage, outcome: Outcome)
    ensures
        match next_stage(stage, outcome) {
            Stage::Parent => false,
            Stage::Request => stage is Parent && outcome is Done,
            Stage::Create => stage is Request && outcome is Response,
            Stage::Read => (stage is Create || stage is Write) && outcome is Done,
            Stage::Write(_) => stage is Read && outcome is Read,
            Stage::Flush => stage is Read && outcome == Outcome::Read(0),
            Stage::Rename => stage is Flush && outcome is Done,
            Stage::Done => stage is Done || (stage is Rename && outcome is Done),
            Stage::Failed => !(stage is Done),
        },
{
}

/// An answer is kept for what it was: where it is the file, the length that it announces
/// becomes the total; where it is anything else, its status, and the reason if it was a
/// refusal, tell why it was not taken. No other stage changes either.
pub proof fn law_answers_are_kept(
    stage: Stage,
    total: Option<u64>,
    rejection: Option<Rejection>,
    outcome: Outcome,
)
    ensures
        ({
            let (t, r) = (
                total_next(stage, total, outcome),
                rejection_next(stage, rejection, outcome),
            );
            let next = next_stage(stage, outcome);
            &&& !(stage is Request) ==> t == total && r == rejection
            &&& next is Create ==> r == rejection && (outcome matches Outcome::Response {
                length,
                ..
            } && t == announced(length))
            &&& !(next is Create) ==> t == total
            &&& stage is Request && next is Failed && outcome is Response ==> (
            r matches Some(Rejection::Unexpected { status }) && status
                == outcome->Response_status)
            &&& stage is Request && outcome is Refused ==> (
            r matches Some(Rejection::Refused { status, reason }) && status
                == outcome->Refused_status && reason == outcome->Refused_reason)
            &&& outcome is Failed ==> r == rejection
        }),
{
}

} // verus!
