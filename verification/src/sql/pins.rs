//! Pins as text: each step is `t` or `g`, for a tag or a tag group, and
//! the id, and ends with a separator, so that the text of a pin begins
//! with the text of every path that leads to it.

use crate::num::{
    i64_to_dec, is_digit, lemma_signed_round_trip, parse_signed, read_signed, signed_dec,
};
use crate::sql::model::PinId;
use crate::text::{chars_of, extend_chars, string_of};
use vstd::prelude::*;

verus! {

/// The character that ends a step.
pub const PIN_SEPARATOR: char = '/';

/// The text of a step without the separator: the letter of its kind and
/// the id.
pub open spec fn step_name(step: PinId) -> Seq<char> {
    match step {
        PinId::Tag(id) => seq!['t'] + signed_dec(id as int),
        PinId::Group(id) => seq!['g'] + signed_dec(id as int),
    }
}

/// The text of a pin: the text of each step, each ended by the
/// separator.
pub open spec fn pin_text_of(pin: Seq<PinId>) -> Seq<char>
    decreases pin.len(),
{
    if pin.len() == 0 {
        Seq::empty()
    } else {
        pin_text_of(pin.drop_last()) + step_name(pin.last()) + seq![PIN_SEPARATOR]
    }
}

/// The step that a piece of text between separators names, if it names
/// one: `t` or `g` and then a signed 64-bit decimal number.
pub open spec fn step_of(chunk: Seq<char>) -> Option<PinId> {
    if chunk.len() == 0 {
        None
    } else {
        match parse_signed(chunk.drop_first()) {
            Some(id) => if chunk[0] == 't' {
                Some(PinId::Tag(id as i64))
            } else if chunk[0] == 'g' {
                Some(PinId::Group(id as i64))
            } else {
                None
            },
            None => None,
        }
    }
}

/// The step of a piece of text, as a sequence of one step or none.
pub open spec fn step_seq(chunk: Seq<char>) -> Seq<PinId> {
    match step_of(chunk) {
        Some(s) => seq![s],
        None => Seq::empty(),
    }
}

/// The steps in a text, where `cur` is the piece read so far: each piece
/// between separators that names a step gives it; any other piece is
/// passed over.
pub open spec fn steps_from(text: Seq<char>, cur: Seq<char>) -> Seq<PinId>
    decreases text.len(),
{
    if text.len() == 0 {
        step_seq(cur)
    } else if text[0] == PIN_SEPARATOR {
        step_seq(cur) + steps_from(text.drop_first(), Seq::empty())
    } else {
        steps_from(text.drop_first(), cur.push(text[0]))
    }
}

/// The steps in a text.
pub open spec fn steps_in(text: Seq<char>) -> Seq<PinId> {
    steps_from(text, Seq::empty())
}

/// The text of a pin.
pub fn pin_to_text(pin: &[PinId]) -> (r: String)
    ensures
        r@ == pin_text_of(pin@),
{
    let mut out: Vec<char> = Vec::new();
    let mut i: usize = 0;
    assert(pin@.take(0) =~= Seq::<PinId>::empty());
    while i < pin.len()
        invariant
            i <= pin.len(),
            out@ == pin_text_of(pin@.take(i as int)),
        decreases pin.len() - i,
    {
        assert(pin@.take(i + 1).drop_last() =~= pin@.take(i as int));
        assert(pin@.take(i + 1).last() == pin@[i as int]);
        let ghost before = out@;
        let id = match pin[i] {
            PinId::Tag(id) => {
                out.push('t');
                id
            },
            PinId::Group(id) => {
                out.push('g');
                id
            },
        };
        let digits = i64_to_dec(id);
        extend_chars(&mut out, digits.as_slice());
        out.push(PIN_SEPARATOR);
        assert(out@ =~= before + step_name(pin@[i as int]) + seq![PIN_SEPARATOR]);
        i += 1;
    }
    assert(pin@.take(pin.len() as int) =~= pin@);
    string_of(out.as_slice())
}

/// The step that a piece of text names, if it names one.
pub fn read_step(chunk: &[char]) -> (r: Option<PinId>)
    ensures
        r == step_of(chunk@),
{
    if chunk.len() == 0 {
        return None;
    }
    let rest = vstd::slice::slice_subrange(chunk, 1, chunk.len());
    assert(rest@ =~= chunk@.drop_first());
    match read_signed(rest) {
        Some(id) => {
            if chunk[0] == 't' {
                Some(PinId::Tag(id))
            } else if chunk[0] == 'g' {
                Some(PinId::Group(id))
            } else {
                None
            }
        },
        None => None,
    }
}

/// The steps in a text.
pub fn pin_from_text(text: &str) -> (r: Vec<PinId>)
    ensures
        r@ == steps_in(text@),
{
    let all = chars_of(text);
    let mut out: Vec<PinId> = Vec::new();
    let mut cur: Vec<char> = Vec::new();
    let mut i: usize = 0;
    assert(all@.skip(0) =~= all@);
    assert(Seq::<PinId>::empty() + steps_from(all@, Seq::empty()) =~= steps_from(
        all@,
        Seq::empty(),
    ));
    while i < all.len()
        invariant
            i <= all.len(),
            all@ == text@,
            steps_in(text@) == out@ + steps_from(all@.skip(i as int), cur@),
        decreases all.len() - i,
    {
        assert(all@.skip(i as int)[0] == all@[i as int]);
        assert(all@.skip(i as int).drop_first() =~= all@.skip(i + 1));
        let ghost before = out@;
        if all[i] == PIN_SEPARATOR {
            match read_step(cur.as_slice()) {
                Some(s) => {
                    out.push(s);
                    assert(out@ =~= before + step_seq(cur@));
                },
                None => {
                    assert(out@ =~= before + step_seq(cur@));
                },
            }
            cur = Vec::new();
            assert(steps_in(text@) =~= out@ + steps_from(all@.skip(i + 1), cur@));
        } else {
            cur.push(all[i]);
        }
        i += 1;
    }
    assert(all@.skip(all.len() as int) =~= Seq::<char>::empty());
    let ghost before = out@;
    match read_step(cur.as_slice()) {
        Some(s) => {
            out.push(s);
            assert(out@ =~= before + step_seq(cur@));
        },
        None => {
            assert(out@ =~= before + step_seq(cur@));
        },
    }
    out
}

/// The name of a step names the step.
pub proof fn lemma_step_name(step: PinId)
    ensures
        step_of(step_name(step)) == Some(step),
        forall|i: int|
            0 <= i < step_name(step).len() ==> #[trigger] step_name(step)[i] != PIN_SEPARATOR,
{
    let id = match step {
        PinId::Tag(id) => id,
        PinId::Group(id) => id,
    };
    lemma_signed_round_trip(id);
    let name = step_name(step);
    assert(name.drop_first() =~= signed_dec(id as int));
    assert forall|i: int| 0 <= i < name.len() implies #[trigger] name[i] != PIN_SEPARATOR by {
        if i > 0 {
            assert(name[i] == signed_dec(id as int)[i - 1]);
            assert(!is_digit(PIN_SEPARATOR, 10));
        }
    }
}

/// A piece without a separator, followed by a separator, is read as one
/// piece.
pub proof fn lemma_steps_after_piece(piece: Seq<char>, rest: Seq<char>, cur: Seq<char>)
    requires
        forall|i: int| 0 <= i < piece.len() ==> #[trigger] piece[i] != PIN_SEPARATOR,
    ensures
        steps_from(piece + seq![PIN_SEPARATOR] + rest, cur) == step_seq(cur + piece) + steps_in(
            rest,
        ),
    decreases piece.len(),
{
    let text = piece + seq![PIN_SEPARATOR] + rest;
    if piece.len() == 0 {
        assert(text.drop_first() =~= rest);
        assert(cur + piece =~= cur);
    } else {
        assert(text[0] == piece[0]);
        assert(text.drop_first() =~= piece.drop_first() + seq![PIN_SEPARATOR] + rest);
        lemma_steps_after_piece(piece.drop_first(), rest, cur.push(piece[0]));
        assert(cur.push(piece[0]) + piece.drop_first() =~= cur + piece);
    }
}

/// The text of a pin is the text of its first step and then that of the
/// others.
pub proof fn lemma_pin_text_from_front(pin: Seq<PinId>)
    requires
        pin.len() > 0,
    ensures
        pin_text_of(pin) == step_name(pin[0]) + seq![PIN_SEPARATOR] + pin_text_of(pin.drop_first()),
    decreases pin.len(),
{
    if pin.len() == 1 {
        assert(pin.drop_last() =~= Seq::<PinId>::empty());
        assert(pin.drop_first() =~= Seq::<PinId>::empty());
        assert(pin_text_of(pin) =~= step_name(pin[0]) + seq![PIN_SEPARATOR] + pin_text_of(
            pin.drop_first(),
        ));
    } else {
        lemma_pin_text_from_front(pin.drop_last());
        assert(pin.drop_last().drop_first() =~= pin.drop_first().drop_last());
        assert(pin.drop_first().last() == pin.last());
        assert(pin.drop_last()[0] == pin[0]);
        assert(pin_text_of(pin) =~= step_name(pin[0]) + seq![PIN_SEPARATOR] + pin_text_of(
            pin.drop_first(),
        ));
    }
}

/// Reading the text of a pin gives back the pin.
pub proof fn law_pin_text_round_trip(pin: Seq<PinId>)
    ensures
        steps_in(pin_text_of(pin)) == pin,
    decreases pin.len(),
{
    if pin.len() == 0 {
        assert(steps_in(pin_text_of(pin)) =~= pin);
    } else {
        lemma_pin_text_from_front(pin);
        lemma_step_name(pin[0]);
        lemma_steps_after_piece(step_name(pin[0]), pin_text_of(pin.drop_first()), Seq::empty());
        law_pin_text_round_trip(pin.drop_first());
        assert(Seq::<char>::empty() + step_name(pin[0]) =~= step_name(pin[0]));
        assert(seq![pin[0]] + pin.drop_first() =~= pin);
    }
}

/// The text of a pin begins with the text of every path that leads to
/// it.
pub proof fn law_pin_text_of_prefix(pin: Seq<PinId>, n: int)
    requires
        0 <= n <= pin.len(),
    ensures
        crate::text::is_prefix(pin_text_of(pin.take(n)), pin_text_of(pin)),
    decreases pin.len() - n,
{
    if n < pin.len() {
        law_pin_text_of_prefix(pin, n + 1);
        assert(pin.take(n + 1).drop_last() =~= pin.take(n));
        let a = pin_text_of(pin.take(n));
        let b = pin_text_of(pin.take(n + 1));
        let c = pin_text_of(pin);
        assert(pin.take(n + 1).last() == pin[n]);
        assert(b =~= a + step_name(pin[n]) + seq![PIN_SEPARATOR]);
        assert(c.subrange(0, b.len() as int) == b);
        assert(a =~= b.subrange(0, a.len() as int));
        assert(c.subrange(0, a.len() as int) =~= a);
    } else {
        assert(pin.take(n) =~= pin);
        assert(pin_text_of(pin).subrange(0, pin_text_of(pin).len() as int) =~= pin_text_of(pin));
    }
}

} // verus!
