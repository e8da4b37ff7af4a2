//! The cursor returned when a sequence, mapping or tagged variant is opened.
//! It tracks whether a separator is owed before the next entry and closes
//! the structure on completion.

use vstd::prelude::*;
use crate::format::{end_struct_bytes, key_close_bytes, key_open_bytes, value_open_bytes};
use crate::value::{key_ok, render, render_key, valid_value, Value};
use super::error::SerError;
use super::map_key_serializer::MapKeySerializer;
use super::Serializer;

verus! {

/// The emission state of an open structure. `Empty` means the structure was
/// opened with a known count of zero and its closing delimiter was already
/// written at creation; `First` means the next entry is the first and takes
/// no leading separator; `Rest` means every further entry takes one.
#[derive(Clone, Copy, Debug, PartialEq, Eq, Structural)]
pub enum State {
    Empty,
    First,
    Rest,
}

/// The per-structure cursor. Every token write is delegated back to the
/// formatter through the serializer passed to each call.
pub struct Compound {
    pub state: State,
}

impl Compound {
    /// The cursor for a structure that was opened and closed at creation
    /// because its element count was known to be zero.
    pub fn empty() -> (c: Compound)
        ensures
            c.state == State::Empty,
    {
        Compound { state: State::Empty }
    }

    /// The cursor for a structure awaiting its first entry.
    pub fn first() -> (c: Compound)
        ensures
            c.state == State::First,
    {
        Compound { state: State::First }
    }

    /// Whether the structure still owes its closing delimiter at `end`.
    pub fn not_empty(&self) -> (b: bool)
        ensures
            b == (self.state != State::Empty),
    {
        self.state != State::Empty
    }

    /// Writes one sequence element: the separator logic first (none before
    /// the first element, a comma before every later one), then the element.
    pub fn serialize_element(&mut self, ser: &mut Serializer, value: &Value) -> (r: Result<
        (),
        SerError,
    >)
        requires
            old(ser).wf(),
        ensures
            final(ser).wf(),
            final(ser).is_pretty() == old(ser).is_pretty(),
            !old(ser).is_pretty() ==> final(ser).formatter == old(ser).formatter,
            final(self).state == State::Rest,
            old(ser).out@.is_prefix_of(final(ser).out@),
            r is Ok <==> valid_value(*value),
            r is Ok ==> final(ser).out@ == old(ser).out@ + crate::format::elem_open_bytes(
                old(self).state == State::First,
                old(ser).is_pretty(),
                old(ser).depth(),
            ) + render(*value, old(ser).is_pretty(), old(ser).depth()) && final(ser).depth() == old(
                ser,
            ).depth(),
            r matches Err(e) ==> (e is KeyMustBeStringOrNumber || e is Custom),
        decreases *value, 1nat,
    {
        let ghost p = old(ser).is_pretty();
        let ghost d = old(ser).depth();
        let ghost open = crate::format::elem_open_bytes(self.state == State::First, p, d);
        ser.formatter.begin_array_value(&mut ser.out, self.state == State::First);
        self.state = State::Rest;
        let ghost mid = ser.out@;
        proof {
            crate::format::lemma_prefix_append(old(ser).out@, open);
        }
        match ser.serialize_value(value) {
            Ok(()) => {
                ser.formatter.end_array_value(&mut ser.out);
                proof {
                    assert(ser.out@ =~= old(ser).out@ + open + render(*value, p, d));
                }
                Ok(())
            },
            Err(e) => {
                proof {
                    crate::format::lemma_prefix_trans(old(ser).out@, mid, ser.out@);
                }
                Err(e)
            },
        }
    }

    /// Writes one mapping key: the separator logic and the opening bracket,
    /// then the key through the restricted key dispatch, then the closing
    /// bracket. A key of a rejected kind fails with the key error before any
    /// key byte is written.
    pub fn serialize_key(&mut self, ser: &mut Serializer, key: &Value) -> (r: Result<(), SerError>)
        requires
            old(ser).wf(),
        ensures
            final(ser).formatter == old(ser).formatter,
            final(self).state == State::Rest,
            old(ser).out@.is_prefix_of(final(ser).out@),
            r is Ok <==> key_ok(*key),
            r is Ok ==> final(ser).out@ == old(ser).out@ + key_open_bytes(
                old(self).state == State::First,
                old(ser).is_pretty(),
                old(ser).depth(),
            ) + render_key(*key) + key_close_bytes(),
            r is Err ==> final(ser).out@ == old(ser).out@ + key_open_bytes(
                old(self).state == State::First,
                old(ser).is_pretty(),
                old(ser).depth(),
            ) && r == Err::<(), SerError>(SerError::KeyMustBeStringOrNumber),
    {
        let ghost p = old(ser).is_pretty();
        let ghost d = old(ser).depth();
        let ghost open = key_open_bytes(self.state == State::First, p, d);
        ser.formatter.begin_object_key(&mut ser.out, self.state == State::First);
        self.state = State::Rest;
        proof {
            crate::format::lemma_prefix_append(old(ser).out@, open);
        }
        match MapKeySerializer::serialize_key(ser, key) {
            Ok(()) => {
                ser.formatter.end_object_key(&mut ser.out);
                proof {
                    assert(ser.out@ =~= old(ser).out@ + open + render_key(*key)
                        + key_close_bytes());
                    crate::format::lemma_prefix_append(
                        old(ser).out@,
                        open + render_key(*key) + key_close_bytes(),
                    );
                    assert(ser.out@ =~= old(ser).out@ + (open + render_key(*key)
                        + key_close_bytes()));
                }
                Ok(())
            },
            Err(e) => Err(e),
        }
    }

    /// Writes one mapping value, wrapped in its own begin/end value tokens.
    /// The separator state is advanced by the key call alone; this call
    /// leaves it untouched.
    pub fn serialize_value(&mut self, ser: &mut Serializer, value: &Value) -> (r: Result<
        (),
        SerError,
    >)
        requires
            old(ser).wf(),
        ensures
            final(ser).wf(),
            final(ser).is_pretty() == old(ser).is_pretty(),
            !old(ser).is_pretty() ==> final(ser).formatter == old(ser).formatter,
            *final(self) == *old(self),
            old(ser).out@.is_prefix_of(final(ser).out@),
            r is Ok <==> valid_value(*value),
            r is Ok ==> final(ser).out@ == old(ser).out@ + value_open_bytes(old(ser).is_pretty())
                + render(*value, old(ser).is_pretty(), old(ser).depth()) && final(ser).depth()
                == old(ser).depth(),
            r matches Err(e) ==> (e is KeyMustBeStringOrNumber || e is Custom),
        decreases *value, 1nat,
    {
        let ghost p = old(ser).is_pretty();
        let ghost d = old(ser).depth();
        ser.formatter.begin_object_value(&mut ser.out);
        let ghost mid = ser.out@;
        proof {
            crate::format::lemma_prefix_append(old(ser).out@, value_open_bytes(p));
        }
        match ser.serialize_value(value) {
            Ok(()) => {
                ser.formatter.end_object_value(&mut ser.out);
                proof {
                    assert(ser.out@ =~= old(ser).out@ + value_open_bytes(p) + render(*value, p, d));
                }
                Ok(())
            },
            Err(e) => {
                proof {
                    crate::format::lemma_prefix_trans(old(ser).out@, mid, ser.out@);
                }
                Err(e)
            },
        }
    }

    /// Writes one struct-like field: the field name as a string key, then
    /// the value.
    pub fn serialize_field(&mut self, ser: &mut Serializer, key: &str, value: &Value) -> (r: Result<
        (),
        SerError,
    >)
        requires
            old(ser).wf(),
        ensures
            final(ser).wf(),
            final(ser).is_pretty() == old(ser).is_pretty(),
            !old(ser).is_pretty() ==> final(ser).formatter == old(ser).formatter,
            final(self).state == State::Rest,
            old(ser).out@.is_prefix_of(final(ser).out@),
            r is Ok <==> valid_value(*value),
            r is Ok ==> final(ser).out@ == old(ser).out@ + key_open_bytes(
                old(self).state == State::First,
                old(ser).is_pretty(),
                old(ser).depth(),
            ) + crate::format::str_lit(vstd::utf8::encode_utf8(key@)) + key_close_bytes()
                + value_open_bytes(old(ser).is_pretty()) + render(
                *value,
                old(ser).is_pretty(),
                old(ser).depth(),
            ) && final(ser).depth() == old(ser).depth(),
            r matches Err(e) ==> (e is KeyMustBeStringOrNumber || e is Custom),
        decreases *value, 1nat,
    {
        let ghost p = old(ser).is_pretty();
        let ghost d = old(ser).depth();
        let ghost open = key_open_bytes(self.state == State::First, p, d);
        ser.formatter.begin_object_key(&mut ser.out, self.state == State::First);
        self.state = State::Rest;
        match super::format_escaped_str(&mut ser.out, &ser.formatter, key) {
            Ok(()) => {
            },
            Err(e) => {
                return Err(e);
            },
        }
        ser.formatter.end_object_key(&mut ser.out);
        ser.formatter.begin_object_value(&mut ser.out);
        let ghost mid = ser.out@;
        proof {
            crate::format::lemma_prefix_append(
                old(ser).out@,
                open + crate::format::str_lit(vstd::utf8::encode_utf8(key@)) + key_close_bytes()
                    + value_open_bytes(p),
            );
            assert(mid =~= old(ser).out@ + (open + crate::format::str_lit(
                vstd::utf8::encode_utf8(key@),
            ) + key_close_bytes() + value_open_bytes(p)));
            assert(old(ser).out@.is_prefix_of(mid));
        }
        match ser.serialize_value(value) {
            Ok(()) => {
                ser.formatter.end_object_value(&mut ser.out);
                proof {
                    assert(ser.out@ =~= old(ser).out@ + open + crate::format::str_lit(
                        vstd::utf8::encode_utf8(key@),
                    ) + key_close_bytes() + value_open_bytes(p) + render(*value, p, d));
                }
                Ok(())
            },
            Err(e) => {
                proof {
                    crate::format::lemma_prefix_trans(old(ser).out@, mid, ser.out@);
                }
                Err(e)
            },
        }
    }

    /// Ends a sequence: the closing delimiter is written unless the
    /// structure was already closed at creation. A structure opened with
    /// unknown length that received no element still ends here, without
    /// interior whitespace.
    pub fn end_seq(self, ser: &mut Serializer) -> (r: Result<(), SerError>)
        requires
            old(ser).wf(),
            self.state != State::Empty && old(ser).is_pretty() ==> old(ser).depth() >= 1,
        ensures
            final(ser).wf(),
            final(ser).is_pretty() == old(ser).is_pretty(),
            !old(ser).is_pretty() ==> final(ser).formatter == old(ser).formatter,
            r is Ok,
            self.state == State::Empty ==> *final(ser) == *old(ser),
            self.state != State::Empty ==> final(ser).out@ == old(ser).out@ + end_struct_bytes(
                self.state == State::Rest,
                old(ser).is_pretty(),
                old(ser).depth(),
            ) && (old(ser).is_pretty() ==> final(ser).depth() == old(ser).depth() - 1),
    {
        if self.not_empty() {
            ser.formatter.end_struct(&mut ser.out, self.state == State::Rest);
        }
        Ok(())
    }

    /// Ends a mapping; the delimiter logic is the same as for a sequence.
    pub fn end_map(self, ser: &mut Serializer) -> (r: Result<(), SerError>)
        requires
            old(ser).wf(),
            self.state != State::Empty && old(ser).is_pretty() ==> old(ser).depth() >= 1,
        ensures
            final(ser).wf(),
            final(ser).is_pretty() == old(ser).is_pretty(),
            !old(ser).is_pretty() ==> final(ser).formatter == old(ser).formatter,
            r is Ok,
            self.state == State::Empty ==> *final(ser) == *old(ser),
            self.state != State::Empty ==> final(ser).out@ == old(ser).out@ + end_struct_bytes(
                self.state == State::Rest,
                old(ser).is_pretty(),
                old(ser).depth(),
            ) && (old(ser).is_pretty() ==> final(ser).depth() == old(ser).depth() - 1),
    {
        if self.not_empty() {
            ser.formatter.end_struct(&mut ser.out, self.state == State::Rest);
        }
        Ok(())
    }

    /// Ends a tuple variant: closes the payload sequence unless it was
    /// closed at creation, then the value token pair and the enclosing
    /// single-key wrapper.
    pub fn end_tuple_variant(self, ser: &mut Serializer) -> (r: Result<(), SerError>)
        requires
            old(ser).wf(),
            old(ser).is_pretty() && self.state == State::Empty ==> old(ser).depth() >= 1,
            old(ser).is_pretty() && self.state != State::Empty ==> old(ser).depth() >= 2,
        ensures
            final(ser).wf(),
            final(ser).is_pretty() == old(ser).is_pretty(),
            !old(ser).is_pretty() ==> final(ser).formatter == old(ser).formatter,
            r is Ok,
            self.state == State::Empty ==> final(ser).out@ == old(ser).out@ + end_struct_bytes(
                true,
                old(ser).is_pretty(),
                old(ser).depth(),
            ) && (old(ser).is_pretty() ==> final(ser).depth() == old(ser).depth() - 1),
            self.state != State::Empty ==> final(ser).out@ == old(ser).out@ + end_struct_bytes(
                self.state == State::Rest,
                old(ser).is_pretty(),
                old(ser).depth(),
            ) + end_struct_bytes(true, old(ser).is_pretty(), (old(ser).depth() - 1) as nat) && (old(
                ser,
            ).is_pretty() ==> final(ser).depth() == old(ser).depth() - 2),
    {
        if self.not_empty() {
            ser.formatter.end_struct(&mut ser.out, self.state == State::Rest);
        }
        ser.formatter.end_object_value(&mut ser.out);
        ser.formatter.end_struct(&mut ser.out, true);
        proof {
            if self.state != State::Empty {
                assert(ser.out@ =~= old(ser).out@ + end_struct_bytes(
                    self.state == State::Rest,
                    old(ser).is_pretty(),
                    old(ser).depth(),
                ) + end_struct_bytes(true, old(ser).is_pretty(), (old(ser).depth() - 1) as nat));
            }
        }
        Ok(())
    }

    /// Ends a struct variant: closes the payload mapping unless it was
    /// closed at creation, then the value token pair and the enclosing
    /// single-key wrapper.
    pub fn end_struct_variant(self, ser: &mut Serializer) -> (r: Result<(), SerError>)
        requires
            old(ser).wf(),
            old(ser).is_pretty() && self.state == State::Empty ==> old(ser).depth() >= 1,
            old(ser).is_pretty() && self.state != State::Empty ==> old(ser).depth() >= 2,
        ensures
            final(ser).wf(),
            final(ser).is_pretty() == old(ser).is_pretty(),
            !old(ser).is_pretty() ==> final(ser).formatter == old(ser).formatter,
            r is Ok,
            self.state == State::Empty ==> final(ser).out@ == old(ser).out@ + end_struct_bytes(
                true,
                old(ser).is_pretty(),
                old(ser).depth(),
            ) && (old(ser).is_pretty() ==> final(ser).depth() == old(ser).depth() - 1),
            self.state != State::Empty ==> final(ser).out@ == old(ser).out@ + end_struct_bytes(
                self.state == State::Rest,
                old(ser).is_pretty(),
                old(ser).depth(),
            ) + end_struct_bytes(true, old(ser).is_pretty(), (old(ser).depth() - 1) as nat) && (old(
                ser,
            ).is_pretty() ==> final(ser).depth() == old(ser).depth() - 2),
    {
        if self.not_empty() {
            ser.formatter.end_struct(&mut ser.out, self.state == State::Rest);
        }
        ser.formatter.end_object_value(&mut ser.out);
        ser.formatter.end_struct(&mut ser.out, true);
        proof {
            if self.state != State::Empty {
                assert(ser.out@ =~= old(ser).out@ + end_struct_bytes(
                    self.state == State::Rest,
                    old(ser).is_pretty(),
                    old(ser).depth(),
                ) + end_struct_bytes(true, old(ser).is_pretty(), (old(ser).depth() - 1) as nat));
            }
        }
        Ok(())
    }
}

} // verus!
