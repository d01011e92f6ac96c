//! How a message of the packet schema is read from its fields: each field
//! in turn is merged into the message so far. A later scalar replaces an
//! earlier one, an embedded message is merged field by field, and a field
//! number that the message does not have is passed over.

use crate::varint::WireError;
use crate::wire::{
    field_views, fields_bytes, lemma_fields_round_trip, parse_fields, put_bytes_field,
    put_fixed64_field, put_varint_field, read_fields, valid_field, Field, FieldView, MAX_TAG,
    WireValueView,
};
use vstd::prelude::*;

verus! {

/// A double as the 64 bits that go on the wire. The library carries doubles
/// without computing on them.
#[derive(Debug, Clone, Copy, PartialEq, Eq, Structural, Default)]
pub struct Double {
    pub bits: u64,
}

/// The bit pattern of negative zero.
pub const NEGATIVE_ZERO_BITS: u64 = 0x8000_0000_0000_0000;

impl Double {
    /// Holds of the two bit patterns that compare equal to zero.
    pub open spec fn is_zero(self) -> bool {
        self.bits == 0 || self.bits == NEGATIVE_ZERO_BITS
    }

    /// Whether the double compares equal to zero, as positive and negative
    /// zero both do.
    pub fn zero(&self) -> (r: bool)
        ensures
            r == self.is_zero(),
    {
        self.bits == 0 || self.bits == NEGATIVE_ZERO_BITS
    }
}

/// The low 32 bits of a varint, as a 32-bit field takes it.
pub open spec fn low32(value: u64) -> u32 {
    (value % 0x1_0000_0000) as u32
}

/// The low 32 bits of a varint, as a 32-bit field takes it.
pub fn truncate32(value: u64) -> (r: u32)
    ensures
        r == low32(value),
{
    (value % 0x1_0000_0000) as u32
}

/// Merges `fields` into `start`, one after the other, with `step`; `None`
/// as soon as `step` refuses a field.
pub open spec fn fold_fields<M>(
    start: M,
    fields: Seq<FieldView>,
    step: spec_fn(M, FieldView) -> Option<M>,
) -> Option<M>
    decreases fields.len(),
{
    if fields.len() == 0 {
        Some(start)
    } else {
        match step(start, fields[0]) {
            Some(next) => fold_fields(next, fields.skip(1), step),
            None => None,
        }
    }
}

/// Merges the fields that `body` is made of into `start`; `None` where
/// `body` is not a sequence of fields or `step` refuses one.
pub open spec fn merge_body<M>(
    start: M,
    body: Seq<u8>,
    step: spec_fn(M, FieldView) -> Option<M>,
) -> Option<M> {
    match parse_fields(body) {
        Some(fields) => fold_fields(start, fields, step),
        None => None,
    }
}

/// Merging a joined sequence is merging its first part, then its second.
pub proof fn lemma_fold_concat<M>(
    start: M,
    a: Seq<FieldView>,
    b: Seq<FieldView>,
    step: spec_fn(M, FieldView) -> Option<M>,
)
    ensures
        fold_fields(start, a + b, step) == match fold_fields(start, a, step) {
            Some(middle) => fold_fields(middle, b, step),
            None => None,
        },
    decreases a.len(),
{
    if a.len() == 0 {
        assert(a + b =~= b);
    } else {
        assert((a + b)[0] == a[0]);
        assert((a + b).skip(1) =~= a.skip(1) + b);
        match step(start, a[0]) {
            Some(next) => lemma_fold_concat(next, a.skip(1), b, step),
            None => {},
        }
    }
}

/// Merging one field is one step.
pub proof fn lemma_fold_one<M>(
    start: M,
    field: FieldView,
    step: spec_fn(M, FieldView) -> Option<M>,
)
    ensures
        fold_fields(start, seq![field], step) == step(start, field),
{
    reveal_with_fuel(fold_fields, 2);
    assert(seq![field].skip(1) =~= Seq::<FieldView>::empty());
}

/// Merging the first `count + 1` fields is merging the first `count`, then
/// one step.
pub proof fn lemma_fold_take_next<M>(
    start: M,
    fields: Seq<FieldView>,
    count: int,
    step: spec_fn(M, FieldView) -> Option<M>,
)
    requires
        0 <= count < fields.len(),
    ensures
        fold_fields(start, fields.take(count + 1), step) == match fold_fields(
            start,
            fields.take(count),
            step,
        ) {
            Some(middle) => step(middle, fields[count]),
            None => None,
        },
{
    assert(fields.take(count + 1) =~= fields.take(count) + seq![fields[count]]);
    lemma_fold_concat(start, fields.take(count), seq![fields[count]], step);
    match fold_fields(start, fields.take(count), step) {
        Some(middle) => lemma_fold_one(middle, fields[count], step),
        None => {},
    }
}

/// The field of a 32-bit number: left out where the number is zero.
pub open spec fn number_field(tag: u32, value: u32) -> Seq<FieldView> {
    if value == 0 {
        Seq::empty()
    } else {
        seq![FieldView { tag, value: WireValueView::Varint(value as u64) }]
    }
}

/// The field of a double: left out where the double compares equal to zero.
pub open spec fn double_field(tag: u32, value: Double) -> Seq<FieldView> {
    if value.is_zero() {
        Seq::empty()
    } else {
        seq![FieldView { tag, value: WireValueView::Fixed64(value.bits) }]
    }
}

/// The field of a byte string: left out where the string is empty.
pub open spec fn bytes_field(tag: u32, value: Seq<u8>) -> Seq<FieldView> {
    if value.len() == 0 {
        Seq::empty()
    } else {
        seq![FieldView { tag, value: WireValueView::Bytes(value) }]
    }
}

/// The field of an embedded message, given the bytes of the message: left
/// out where the message is absent, written even where its bytes are empty.
pub open spec fn message_field(tag: u32, body: Option<Seq<u8>>) -> Seq<FieldView> {
    match body {
        Some(bytes) => seq![FieldView { tag, value: WireValueView::Bytes(bytes) }],
        None => Seq::empty(),
    }
}

/// Every field of the sequence can be written and read back.
pub open spec fn valid_fields(fields: Seq<FieldView>) -> bool {
    forall|i: int| 0 <= i < fields.len() ==> valid_field(#[trigger] fields[i])
}

/// Joining two sequences of valid fields gives valid fields.
pub proof fn lemma_valid_fields_concat(a: Seq<FieldView>, b: Seq<FieldView>)
    requires
        valid_fields(a),
        valid_fields(b),
    ensures
        valid_fields(a + b),
{
    assert forall|i: int| 0 <= i < (a + b).len() implies valid_field(#[trigger] (a + b)[i]) by {
        if i < a.len() {
            assert((a + b)[i] == a[i]);
        } else {
            assert((a + b)[i] == b[i - a.len()]);
        }
    }
}

/// Reading the bytes of valid fields and merging them is merging the fields.
pub proof fn lemma_merge_body_of_fields<M>(
    start: M,
    fields: Seq<FieldView>,
    step: spec_fn(M, FieldView) -> Option<M>,
)
    requires
        valid_fields(fields),
    ensures
        merge_body(start, fields_bytes(fields), step) == fold_fields(start, fields, step),
{
    lemma_fields_round_trip(fields);
}

/// A message of the packet schema: what its fields are, and how one field
/// is merged into it.
pub trait WireMessage: View + Sized {
    /// The message that no field has been merged into.
    spec fn empty() -> Self::V;

    /// The fields of the message, by field number; fields that hold their
    /// default are left out.
    spec fn fields(m: Self::V) -> Seq<FieldView>;

    /// The message after one field, or `None` where the field has a number
    /// of the message but not its shape. A field with a number that the
    /// message does not have changes nothing.
    spec fn step(m: Self::V, field: FieldView) -> Option<Self::V>;

    /// The message that no field has been merged into.
    fn new() -> (r: Self)
        ensures
            r@ == Self::empty(),
    ;

    /// Appends the bytes of the message to `buf`.
    fn encode_into(&self, buf: &mut Vec<u8>)
        ensures
            final(buf)@ == old(buf)@ + fields_bytes(Self::fields(self@)),
    ;

    /// Merges one field into the message.
    fn merge_field(self, field: &Field) -> (r: Result<Self, WireError>)
        ensures
            match r {
                Ok(m) => Self::step(self@, field@) == Some(m@),
                Err(_) => Self::step(self@, field@) is None,
            },
    ;
}

/// The step of message type `M` as a function.
pub open spec fn step_of<M: WireMessage>() -> spec_fn(M::V, FieldView) -> Option<M::V> {
    |m: M::V, f: FieldView| M::step(m, f)
}

/// The bytes of a message.
pub open spec fn message_bytes<M: WireMessage>(m: M::V) -> Seq<u8> {
    fields_bytes(M::fields(m))
}

/// The message that `body` holds when merged into `start`.
pub open spec fn merge_message<M: WireMessage>(start: M::V, body: Seq<u8>) -> Option<M::V> {
    merge_body(start, body, step_of::<M>())
}

/// The message that `body` holds.
pub open spec fn parse_message<M: WireMessage>(body: Seq<u8>) -> Option<M::V> {
    merge_message::<M>(M::empty(), body)
}

/// A message whose fields can be written, and that merging them gives,
/// reads back from its bytes.
pub proof fn lemma_message_round_trip<M: WireMessage>(m: M::V)
    requires
        valid_fields(M::fields(m)),
        fold_fields(M::empty(), M::fields(m), step_of::<M>()) == Some(m),
    ensures
        parse_message::<M>(message_bytes::<M>(m)) == Some(m),
{
    lemma_merge_body_of_fields(M::empty(), M::fields(m), step_of::<M>());
}

/// Merges `fields` into `start`, in order.
pub fn merge_fields<M: WireMessage>(start: M, fields: &Vec<Field>) -> (r: Result<M, WireError>)
    ensures
        match r {
            Ok(m) => fold_fields(start@, field_views(fields@), step_of::<M>()) == Some(m@),
            Err(_) => fold_fields(start@, field_views(fields@), step_of::<M>()) is None,
        },
{
    let ghost views = field_views(fields@);
    let ghost first = start@;
    let mut current = start;
    let mut i: usize = 0;
    assert(views.take(0) =~= Seq::<FieldView>::empty());
    while i < fields.len()
        invariant
            i <= fields.len(),
            views == field_views(fields@),
            first == start@,
            fold_fields(first, views.take(i as int), step_of::<M>()) == Some(current@),
        decreases fields.len() - i,
    {
        let ghost before = current@;
        proof {
            lemma_fold_take_next(first, views, i as int, step_of::<M>());
            assert(views[i as int] == fields[i as int]@);
            assert(step_of::<M>()(before, views[i as int]) == M::step(before, views[i as int]));
        }
        match current.merge_field(&fields[i]) {
            Ok(next) => {
                current = next;
            },
            Err(e) => {
                proof {
                    lemma_fold_concat(first, views.take(i + 1), views.skip(i + 1), step_of::<M>());
                    assert(views.take(i + 1) + views.skip(i + 1) =~= views);
                }
                return Err(e);
            },
        }
        i = i + 1;
    }
    assert(views.take(i as int) =~= views);
    Ok(current)
}

/// Merges the fields that `body` is made of into `start`. Fails exactly
/// where `body` is not a sequence of fields or one of them is refused.
pub fn merge_from<M: WireMessage>(start: M, body: &[u8]) -> (r: Result<M, WireError>)
    ensures
        match r {
            Ok(m) => merge_message::<M>(start@, body@) == Some(m@),
            Err(_) => merge_message::<M>(start@, body@) is None,
        },
{
    match read_fields(body) {
        Ok(fields) => merge_fields(start, &fields),
        Err(e) => Err(e),
    }
}

/// Reads a message from `body`. Fails exactly where `body` is not a
/// sequence of fields or one of them is refused.
pub fn decode_message<M: WireMessage>(body: &[u8]) -> (r: Result<M, WireError>)
    ensures
        match r {
            Ok(m) => parse_message::<M>(body@) == Some(m@),
            Err(_) => parse_message::<M>(body@) is None,
        },
{
    merge_from(M::new(), body)
}

/// The bytes of a message, in a vector of their own.
pub fn encode_message<M: WireMessage>(m: &M) -> (r: Vec<u8>)
    ensures
        r@ == message_bytes::<M>(m@),
{
    let mut buf: Vec<u8> = Vec::new();
    m.encode_into(&mut buf);
    assert(buf@ =~= message_bytes::<M>(m@));
    buf
}

/// Appends the field of a 32-bit number, unless the number is zero.
pub fn put_number(tag: u32, value: u32, buf: &mut Vec<u8>)
    requires
        1 <= tag <= MAX_TAG,
    ensures
        final(buf)@ == old(buf)@ + fields_bytes(number_field(tag, value)),
{
    reveal_with_fuel(fields_bytes, 2);
    if value != 0 {
        put_varint_field(tag, value as u64, buf);
        assert(number_field(tag, value).skip(1) =~= Seq::<FieldView>::empty());
    }
    assert(buf@ =~= old(buf)@ + fields_bytes(number_field(tag, value)));
}

/// Appends the field of a double, unless it compares equal to zero.
pub fn put_double(tag: u32, value: Double, buf: &mut Vec<u8>)
    requires
        1 <= tag <= MAX_TAG,
    ensures
        final(buf)@ == old(buf)@ + fields_bytes(double_field(tag, value)),
{
    reveal_with_fuel(fields_bytes, 2);
    if !value.zero() {
        put_fixed64_field(tag, value.bits, buf);
        assert(double_field(tag, value).skip(1) =~= Seq::<FieldView>::empty());
    }
    assert(buf@ =~= old(buf)@ + fields_bytes(double_field(tag, value)));
}

/// Appends the field of a byte string, unless the string is empty.
pub fn put_bytes(tag: u32, value: &[u8], buf: &mut Vec<u8>)
    requires
        1 <= tag <= MAX_TAG,
    ensures
        final(buf)@ == old(buf)@ + fields_bytes(bytes_field(tag, value@)),
{
    reveal_with_fuel(fields_bytes, 2);
    if value.len() != 0 {
        put_bytes_field(tag, value, buf);
        assert(bytes_field(tag, value@).skip(1) =~= Seq::<FieldView>::empty());
    }
    assert(buf@ =~= old(buf)@ + fields_bytes(bytes_field(tag, value@)));
}

/// Appends the field of an embedded message whose bytes are `body`.
pub fn put_message(tag: u32, body: &[u8], buf: &mut Vec<u8>)
    requires
        1 <= tag <= MAX_TAG,
    ensures
        final(buf)@ == old(buf)@ + fields_bytes(message_field(tag, Some(body@))),
{
    reveal_with_fuel(fields_bytes, 2);
    put_bytes_field(tag, body, buf);
    assert(message_field(tag, Some(body@)).skip(1) =~= Seq::<FieldView>::empty());
    assert(buf@ =~= old(buf)@ + fields_bytes(message_field(tag, Some(body@))));
}

} // verus!
