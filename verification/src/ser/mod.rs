//! The serialization engine: the `Serializer` walks a value graph, writes
//! scalar literals directly, and opens a `Compound` cursor for sequences,
//! mappings and tagged variants.

pub mod compound;
pub mod error;
pub mod map_key_serializer;

use vstd::prelude::*;
use vstd::utf8::encode_utf8;
use vstd::string::StringSliceAdditionalSpecFns;
use vstd::string::StringExecFns;
use crate::format::{begin_struct_bytes, bool_bytes, end_struct_bytes, fmt_i64, fmt_u64, nil_bytes,
    num_token_wf, str_lit, Formatter};
use crate::value::{byte_items, render, valid_value, variant_open, Value};
use compound::{Compound, State};
use error::SerError;

verus! {

/// Owns the byte sink and the chosen output style for the duration of one
/// top-level serialization call. The sink is append-only: every operation
/// only ever adds bytes after those already written.
pub struct Serializer {
    pub out: Vec<u8>,
    pub formatter: Formatter,
}

impl Serializer {
    /// The formatter's indentation bookkeeping is intact.
    pub open spec fn wf(&self) -> bool {
        self.formatter.wf()
    }

    /// Whether the pretty style was chosen.
    pub open spec fn is_pretty(&self) -> bool {
        self.formatter.is_pretty()
    }

    /// The current nesting depth (zero for the compact style).
    pub open spec fn depth(&self) -> nat {
        self.formatter.depth()
    }

    /// A compact serializer writing into `writer`.
    pub fn new(writer: Vec<u8>) -> (s: Serializer)
        ensures
            s.out == writer,
            s.formatter == Formatter::Compact,
            s.wf(),
            !s.is_pretty(),
    {
        Serializer::with_formatter(writer, Formatter::Compact)
    }

    /// A pretty-printing serializer writing into `writer`.
    pub fn pretty(writer: Vec<u8>) -> (s: Serializer)
        ensures
            s.out == writer,
            s.wf(),
            s.is_pretty(),
            s.depth() == 0,
    {
        Serializer::with_formatter(writer, Formatter::new_pretty())
    }

    /// A serializer writing into `writer` with the given style.
    pub fn with_formatter(writer: Vec<u8>, formatter: Formatter) -> (s: Serializer)
        ensures
            s.out == writer,
            s.formatter == formatter,
    {
        Serializer { out: writer, formatter }
    }

    /// Unwraps the sink from the serializer.
    pub fn into_inner(self) -> (w: Vec<u8>)
        ensures
            w == self.out,
    {
        self.out
    }

    /// Writes a boolean literal.
    pub fn serialize_bool(&mut self, v: bool) -> (r: Result<(), SerError>)
        ensures
            final(self).formatter == old(self).formatter,
            final(self).out@ == old(self).out@ + bool_bytes(v),
            r is Ok,
    {
        self.formatter.write_bool(&mut self.out, v);
        Ok(())
    }

    /// Writes a signed integer literal.
    pub fn serialize_i8(&mut self, v: i8) -> (r: Result<(), SerError>)
        ensures
            final(self).formatter == old(self).formatter,
            final(self).out@ == old(self).out@ + fmt_i64(v as i64),
            r is Ok,
    {
        self.serialize_i64(v as i64)
    }

    /// Writes a signed integer literal.
    pub fn serialize_i16(&mut self, v: i16) -> (r: Result<(), SerError>)
        ensures
            final(self).formatter == old(self).formatter,
            final(self).out@ == old(self).out@ + fmt_i64(v as i64),
            r is Ok,
    {
        self.serialize_i64(v as i64)
    }

    /// Writes a signed integer literal.
    pub fn serialize_i32(&mut self, v: i32) -> (r: Result<(), SerError>)
        ensures
            final(self).formatter == old(self).formatter,
            final(self).out@ == old(self).out@ + fmt_i64(v as i64),
            r is Ok,
    {
        self.serialize_i64(v as i64)
    }

    /// Writes a signed integer literal.
    pub fn serialize_i64(&mut self, v: i64) -> (r: Result<(), SerError>)
        ensures
            final(self).formatter == old(self).formatter,
            final(self).out@ == old(self).out@ + fmt_i64(v),
            r is Ok,
    {
        self.formatter.write_i64(&mut self.out, v);
        Ok(())
    }

    /// Writes an unsigned integer literal.
    pub fn serialize_u8(&mut self, v: u8) -> (r: Result<(), SerError>)
        ensures
            final(self).formatter == old(self).formatter,
            final(self).out@ == old(self).out@ + fmt_u64(v as u64),
            r is Ok,
    {
        self.serialize_u64(v as u64)
    }

    /// Writes an unsigned integer literal.
    pub fn serialize_u16(&mut self, v: u16) -> (r: Result<(), SerError>)
        ensures
            final(self).formatter == old(self).formatter,
            final(self).out@ == old(self).out@ + fmt_u64(v as u64),
            r is Ok,
    {
        self.serialize_u64(v as u64)
    }

    /// Writes an unsigned integer literal.
    pub fn serialize_u32(&mut self, v: u32) -> (r: Result<(), SerError>)
        ensures
            final(self).formatter == old(self).formatter,
            final(self).out@ == old(self).out@ + fmt_u64(v as u64),
            r is Ok,
    {
        self.serialize_u64(v as u64)
    }

    /// Writes an unsigned integer literal.
    pub fn serialize_u64(&mut self, v: u64) -> (r: Result<(), SerError>)
        ensures
            final(self).formatter == old(self).formatter,
            final(self).out@ == old(self).out@ + fmt_u64(v),
            r is Ok,
    {
        self.formatter.write_u64(&mut self.out, v);
        Ok(())
    }

    /// Writes a caller-rendered numeric literal verbatim. This is the entry
    /// through which floating-point values reach the output: the caller
    /// renders a finite float with a round-tripping formatter and passes the
    /// bytes, which must stay within the numeric alphabet.
    pub fn serialize_number_token(&mut self, token: &[u8]) -> (r: Result<(), SerError>)
        requires
            num_token_wf(token@),
        ensures
            final(self).formatter == old(self).formatter,
            final(self).out@ == old(self).out@ + token@,
            r is Ok,
    {
        let mut i: usize = 0;
        proof {
            assert(self.out@ =~= old(self).out@ + token@.take(0));
        }
        while i < token.len()
            invariant
                i <= token@.len(),
                self.out@ == old(self).out@ + token@.take(i as int),
                self.formatter == old(self).formatter,
            decreases token@.len() - i,
        {
            self.out.push(token[i]);
            proof {
                assert(token@.take(i + 1) =~= token@.take(i as int).push(token@[i as int]));
                assert(self.out@ =~= old(self).out@ + token@.take(i + 1));
            }
            i += 1;
        }
        proof {
            assert(token@.take(token@.len() as int) =~= token@);
        }
        Ok(())
    }

    /// Writes a character through the string path, as a one-character
    /// string literal.
    pub fn serialize_char(&mut self, v: char) -> (r: Result<(), SerError>)
        ensures
            final(self).formatter == old(self).formatter,
            final(self).out@ == old(self).out@ + str_lit(encode_utf8(seq![v])),
            r is Ok,
    {
        let buf = char_utf8_bytes(v);
        self.formatter.begin_string(&mut self.out);
        self.formatter.write_string_contents(&mut self.out, buf.as_slice());
        self.formatter.end_string(&mut self.out);
        proof {
            assert(self.out@ =~= old(self).out@ + str_lit(encode_utf8(seq![v])));
        }
        Ok(())
    }

    /// Writes a string literal: delimiter, escaped contents, delimiter.
    pub fn serialize_str(&mut self, v: &str) -> (r: Result<(), SerError>)
        ensures
            final(self).formatter == old(self).formatter,
            final(self).out@ == old(self).out@ + str_lit(encode_utf8(v@)),
            r is Ok,
    {
        format_escaped_str(&mut self.out, &self.formatter, v)
    }

    /// Writes a byte string as a sequence of the byte values.
    pub fn serialize_bytes(&mut self, v: &[u8]) -> (r: Result<(), SerError>)
        requires
            old(self).wf(),
        ensures
            final(self).wf(),
            final(self).is_pretty() == old(self).is_pretty(),
            final(self).depth() == old(self).depth(),
            final(self).out@ == old(self).out@ + begin_struct_bytes() + byte_items(
                v@,
                old(self).is_pretty(),
                crate::format::bump(old(self).is_pretty(), old(self).depth()),
            ) + end_struct_bytes(
                v@.len() > 0,
                old(self).is_pretty(),
                crate::format::bump(old(self).is_pretty(), old(self).depth()),
            ),
            r is Ok,
    {
        let ghost p = old(self).is_pretty();
        let ghost d = crate::format::bump(old(self).is_pretty(), old(self).depth());
        self.formatter.begin_struct(&mut self.out);
        let mut i: usize = 0;
        proof {
            assert(byte_items(v@.take(0), p, d) =~= Seq::<u8>::empty());
            assert(self.out@ =~= old(self).out@ + begin_struct_bytes() + byte_items(
                v@.take(0),
                p,
                d,
            ));
        }
        while i < v.len()
            invariant
                i <= v@.len(),
                self.wf(),
                self.is_pretty() == p,
                self.depth() == d,
                !p ==> self.formatter == old(self).formatter,
                self.out@ == old(self).out@ + begin_struct_bytes() + byte_items(
                    v@.take(i as int),
                    p,
                    d,
                ),
            decreases v@.len() - i,
        {
            let ghost prev = self.out@;
            self.formatter.begin_array_value(&mut self.out, i == 0);
            self.formatter.write_u64(&mut self.out, v[i] as u64);
            proof {
                let t = v@.take(i + 1);
                assert(t.drop_last() =~= v@.take(i as int));
                assert(t.last() == v@[i as int]);
                assert(byte_items(t, p, d) == byte_items(v@.take(i as int), p, d)
                    + crate::format::elem_open_bytes(i == 0, p, d) + fmt_u64(v@[i as int] as u64));
                assert(self.out@ =~= old(self).out@ + begin_struct_bytes() + byte_items(t, p, d));
            }
            i += 1;
        }
        proof {
            assert(v@.take(v@.len() as int) =~= v@);
        }
        self.formatter.end_struct(&mut self.out, v.len() > 0);
        proof {
            assert(self.out@ =~= old(self).out@ + begin_struct_bytes() + byte_items(v@, p, d)
                + end_struct_bytes(v@.len() > 0, p, d));
        }
        Ok(())
    }

    /// A missing optional value renders as the null literal.
    pub fn serialize_none(&mut self) -> (r: Result<(), SerError>)
        ensures
            final(self).formatter == old(self).formatter,
            final(self).out@ == old(self).out@ + nil_bytes(),
            r is Ok,
    {
        self.serialize_unit()
    }

    /// Writes the null literal.
    pub fn serialize_unit(&mut self) -> (r: Result<(), SerError>)
        ensures
            final(self).formatter == old(self).formatter,
            final(self).out@ == old(self).out@ + nil_bytes(),
            r is Ok,
    {
        self.formatter.write_null(&mut self.out);
        Ok(())
    }

    /// A zero-field unit value renders as the null literal.
    pub fn serialize_unit_struct(&mut self, _name: &str) -> (r: Result<(), SerError>)
        ensures
            final(self).formatter == old(self).formatter,
            final(self).out@ == old(self).out@ + nil_bytes(),
            r is Ok,
    {
        self.serialize_unit()
    }

    /// An enumerated unit variant renders as its bare name through the
    /// string path.
    pub fn serialize_unit_variant(&mut self, variant: &str) -> (r: Result<(), SerError>)
        ensures
            final(self).formatter == old(self).formatter,
            final(self).out@ == old(self).out@ + str_lit(encode_utf8(variant@)),
            r is Ok,
    {
        self.serialize_str(variant)
    }

    /// A present optional value renders as the value itself.
    pub fn serialize_some(&mut self, value: &Value) -> (r: Result<(), SerError>)
        requires
            old(self).wf(),
        ensures
            final(self).wf(),
            final(self).is_pretty() == old(self).is_pretty(),
            !old(self).is_pretty() ==> final(self).formatter == old(self).formatter,
            old(self).out@.is_prefix_of(final(self).out@),
            r is Ok <==> valid_value(*value),
            r is Ok ==> final(self).out@ == old(self).out@ + render(
                *value,
                old(self).is_pretty(),
                old(self).depth(),
            ) && final(self).depth() == old(self).depth(),
            r matches Err(e) ==> (e is KeyMustBeStringOrNumber || e is Custom),
    {
        self.serialize_value(value)
    }

    /// A newtype wrapper is transparent: the inner value renders alone.
    pub fn serialize_newtype_struct(&mut self, _name: &str, value: &Value) -> (r: Result<
        (),
        SerError,
    >)
        requires
            old(self).wf(),
        ensures
            final(self).wf(),
            final(self).is_pretty() == old(self).is_pretty(),
            !old(self).is_pretty() ==> final(self).formatter == old(self).formatter,
            old(self).out@.is_prefix_of(final(self).out@),
            r is Ok <==> valid_value(*value),
            r is Ok ==> final(self).out@ == old(self).out@ + render(
                *value,
                old(self).is_pretty(),
                old(self).depth(),
            ) && final(self).depth() == old(self).depth(),
            r matches Err(e) ==> (e is KeyMustBeStringOrNumber || e is Custom),
    {
        self.serialize_value(value)
    }

    /// Opens a sequence. The opening delimiter is written unconditionally;
    /// a count known to be zero closes the structure at once and hands back
    /// an `Empty` cursor, anything else a `First` cursor.
    pub fn serialize_seq(&mut self, len: Option<usize>) -> (r: Result<Compound, SerError>)
        requires
            old(self).wf(),
        ensures
            final(self).wf(),
            final(self).is_pretty() == old(self).is_pretty(),
            !old(self).is_pretty() ==> final(self).formatter == old(self).formatter,
            r is Ok,
            r matches Ok(c) ==> (if len == Some(0usize) {
                &&& c.state == State::Empty
                &&& final(self).out@ == old(self).out@ + begin_struct_bytes() + end_struct_bytes(
                    false,
                    old(self).is_pretty(),
                    crate::format::bump(old(self).is_pretty(), old(self).depth()),
                )
                &&& final(self).depth() == old(self).depth()
            } else {
                &&& c.state == State::First
                &&& final(self).out@ == old(self).out@ + begin_struct_bytes()
                &&& final(self).depth() == crate::format::bump(
                    old(self).is_pretty(),
                    old(self).depth(),
                )
            }),
    {
        self.formatter.begin_struct(&mut self.out);
        let known_zero = match len {
            Some(l) => l == 0,
            None => false,
        };
        if known_zero {
            self.formatter.end_struct(&mut self.out, false);
            proof {
                assert(self.out@ =~= old(self).out@ + begin_struct_bytes() + end_struct_bytes(
                    false,
                    old(self).is_pretty(),
                    crate::format::bump(old(self).is_pretty(), old(self).depth()),
                ));
            }
            Ok(Compound::empty())
        } else {
            Ok(Compound::first())
        }
    }

    /// A tuple renders as a sequence of its components.
    pub fn serialize_tuple(&mut self, len: usize) -> (r: Result<Compound, SerError>)
        requires
            old(self).wf(),
        ensures
            final(self).wf(),
            final(self).is_pretty() == old(self).is_pretty(),
            !old(self).is_pretty() ==> final(self).formatter == old(self).formatter,
            r is Ok,
            r matches Ok(c) ==> (if len == 0 {
                &&& c.state == State::Empty
                &&& final(self).out@ == old(self).out@ + begin_struct_bytes() + end_struct_bytes(
                    false,
                    old(self).is_pretty(),
                    crate::format::bump(old(self).is_pretty(), old(self).depth()),
                )
                &&& final(self).depth() == old(self).depth()
            } else {
                &&& c.state == State::First
                &&& final(self).out@ == old(self).out@ + begin_struct_bytes()
                &&& final(self).depth() == crate::format::bump(
                    old(self).is_pretty(),
                    old(self).depth(),
                )
            }),
    {
        self.serialize_seq(Some(len))
    }

    /// A tuple struct renders as a sequence of its components.
    pub fn serialize_tuple_struct(&mut self, _name: &str, len: usize) -> (r: Result<
        Compound,
        SerError,
    >)
        requires
            old(self).wf(),
        ensures
            final(self).wf(),
            final(self).is_pretty() == old(self).is_pretty(),
            !old(self).is_pretty() ==> final(self).formatter == old(self).formatter,
            r is Ok,
            r matches Ok(c) ==> (if len == 0 {
                &&& c.state == State::Empty
                &&& final(self).out@ == old(self).out@ + begin_struct_bytes() + end_struct_bytes(
                    false,
                    old(self).is_pretty(),
                    crate::format::bump(old(self).is_pretty(), old(self).depth()),
                )
                &&& final(self).depth() == old(self).depth()
            } else {
                &&& c.state == State::First
                &&& final(self).out@ == old(self).out@ + begin_struct_bytes()
                &&& final(self).depth() == crate::format::bump(
                    old(self).is_pretty(),
                    old(self).depth(),
                )
            }),
    {
        self.serialize_seq(Some(len))
    }

    /// Opens a mapping; the delimiter logic is the same as for a sequence.
    pub fn serialize_map(&mut self, len: Option<usize>) -> (r: Result<Compound, SerError>)
        requires
            old(self).wf(),
        ensures
            final(self).wf(),
            final(self).is_pretty() == old(self).is_pretty(),
            !old(self).is_pretty() ==> final(self).formatter == old(self).formatter,
            r is Ok,
            r matches Ok(c) ==> (if len == Some(0usize) {
                &&& c.state == State::Empty
                &&& final(self).out@ == old(self).out@ + begin_struct_bytes() + end_struct_bytes(
                    false,
                    old(self).is_pretty(),
                    crate::format::bump(old(self).is_pretty(), old(self).depth()),
                )
                &&& final(self).depth() == old(self).depth()
            } else {
                &&& c.state == State::First
                &&& final(self).out@ == old(self).out@ + begin_struct_bytes()
                &&& final(self).depth() == crate::format::bump(
                    old(self).is_pretty(),
                    old(self).depth(),
                )
            }),
    {
        self.formatter.begin_struct(&mut self.out);
        let known_zero = match len {
            Some(l) => l == 0,
            None => false,
        };
        if known_zero {
            self.formatter.end_struct(&mut self.out, false);
            proof {
                assert(self.out@ =~= old(self).out@ + begin_struct_bytes() + end_struct_bytes(
                    false,
                    old(self).is_pretty(),
                    crate::format::bump(old(self).is_pretty(), old(self).depth()),
                ));
            }
            Ok(Compound::empty())
        } else {
            Ok(Compound::first())
        }
    }

    /// A struct-like value renders as a mapping keyed by its field names.
    pub fn serialize_struct(&mut self, _name: &str, len: usize) -> (r: Result<Compound, SerError>)
        requires
            old(self).wf(),
        ensures
            final(self).wf(),
            final(self).is_pretty() == old(self).is_pretty(),
            !old(self).is_pretty() ==> final(self).formatter == old(self).formatter,
            r is Ok,
            r matches Ok(c) ==> (if len == 0 {
                &&& c.state == State::Empty
                &&& final(self).out@ == old(self).out@ + begin_struct_bytes() + end_struct_bytes(
                    false,
                    old(self).is_pretty(),
                    crate::format::bump(old(self).is_pretty(), old(self).depth()),
                )
                &&& final(self).depth() == old(self).depth()
            } else {
                &&& c.state == State::First
                &&& final(self).out@ == old(self).out@ + begin_struct_bytes()
                &&& final(self).depth() == crate::format::bump(
                    old(self).is_pretty(),
                    old(self).depth(),
                )
            }),
    {
        self.serialize_map(Some(len))
    }

    /// Writes the single-key wrapper of a tagged variant: the enclosing
    /// delimiter, the variant name as the sole key, and the key/value
    /// separator. The payload follows through the returned cursor or call.
    fn open_variant(&mut self, variant: &str) -> (r: Result<(), SerError>)
        requires
            old(self).wf(),
        ensures
            final(self).wf(),
            final(self).is_pretty() == old(self).is_pretty(),
            !old(self).is_pretty() ==> final(self).formatter == old(self).formatter,
            final(self).out@ == old(self).out@ + variant_open(
                variant@,
                old(self).is_pretty(),
                old(self).depth(),
            ),
            final(self).depth() == crate::format::bump(old(self).is_pretty(), old(self).depth()),
            r is Ok,
    {
        self.formatter.begin_struct(&mut self.out);
        self.formatter.begin_object_key(&mut self.out, true);
        let rs = format_escaped_str(&mut self.out, &self.formatter, variant);
        match rs {
            Ok(()) => {
            },
            Err(e) => {
                return Err(e);
            },
        }
        self.formatter.end_object_key(&mut self.out);
        self.formatter.begin_object_value(&mut self.out);
        proof {
            assert(self.out@ =~= old(self).out@ + variant_open(
                variant@,
                old(self).is_pretty(),
                old(self).depth(),
            ));
        }
        Ok(())
    }

    /// A tagged variant with one payload value: the wrapper opens, the
    /// payload renders one level deeper, and the wrapper closes.
    pub fn serialize_newtype_variant(&mut self, variant: &str, value: &Value) -> (r: Result<
        (),
        SerError,
    >)
        requires
            old(self).wf(),
        ensures
            final(self).wf(),
            final(self).is_pretty() == old(self).is_pretty(),
            !old(self).is_pretty() ==> final(self).formatter == old(self).formatter,
            old(self).out@.is_prefix_of(final(self).out@),
            r is Ok <==> valid_value(*value),
            r is Ok ==> final(self).out@ == old(self).out@ + variant_open(
                variant@,
                old(self).is_pretty(),
                old(self).depth(),
            ) + render(
                *value,
                old(self).is_pretty(),
                crate::format::bump(old(self).is_pretty(), old(self).depth()),
            ) + end_struct_bytes(
                true,
                old(self).is_pretty(),
                crate::format::bump(old(self).is_pretty(), old(self).depth()),
            ) && final(self).depth() == old(self).depth(),
            r matches Err(e) ==> (e is KeyMustBeStringOrNumber || e is Custom),
        decreases *value, 1nat,
    {
        let ghost p = old(self).is_pretty();
        let ghost d = old(self).depth();
        match self.open_variant(variant) {
            Ok(()) => {
            },
            Err(e) => {
                return Err(e);
            },
        }
        let ghost mid = self.out@;
        proof {
            crate::format::lemma_prefix_append(old(self).out@, variant_open(variant@, p, d));
        }
        match self.serialize_value(value) {
            Ok(()) => {
                self.formatter.end_object_value(&mut self.out);
                self.formatter.end_struct(&mut self.out, true);
                proof {
                    assert(self.out@ =~= old(self).out@ + variant_open(variant@, p, d) + render(
                        *value,
                        p,
                        crate::format::bump(p, d),
                    ) + end_struct_bytes(true, p, crate::format::bump(p, d)));
                    crate::format::lemma_prefix_append(
                        old(self).out@,
                        variant_open(variant@, p, d) + render(
                            *value,
                            p,
                            crate::format::bump(p, d),
                        ) + end_struct_bytes(true, p, crate::format::bump(p, d)),
                    );
                    assert(self.out@ =~= old(self).out@ + (variant_open(variant@, p, d) + render(
                        *value,
                        p,
                        crate::format::bump(p, d),
                    ) + end_struct_bytes(true, p, crate::format::bump(p, d))));
                }
                Ok(())
            },
            Err(e) => {
                proof {
                    crate::format::lemma_prefix_trans(old(self).out@, mid, self.out@);
                }
                Err(e)
            },
        }
    }

    /// A tagged variant with tuple payload: the wrapper opens, then a
    /// sequence opens for the components; the cursor's tuple-variant ending
    /// closes both.
    pub fn serialize_tuple_variant(&mut self, variant: &str, len: usize) -> (r: Result<
        Compound,
        SerError,
    >)
        requires
            old(self).wf(),
        ensures
            final(self).wf(),
            final(self).is_pretty() == old(self).is_pretty(),
            !old(self).is_pretty() ==> final(self).formatter == old(self).formatter,
            r is Ok,
            r matches Ok(c) ==> (if len == 0 {
                &&& c.state == State::Empty
                &&& final(self).out@ == old(self).out@ + variant_open(
                    variant@,
                    old(self).is_pretty(),
                    old(self).depth(),
                ) + begin_struct_bytes() + end_struct_bytes(
                    false,
                    old(self).is_pretty(),
                    crate::format::bump(
                        old(self).is_pretty(),
                        crate::format::bump(old(self).is_pretty(), old(self).depth()),
                    ),
                )
                &&& final(self).depth() == crate::format::bump(
                    old(self).is_pretty(),
                    old(self).depth(),
                )
            } else {
                &&& c.state == State::First
                &&& final(self).out@ == old(self).out@ + variant_open(
                    variant@,
                    old(self).is_pretty(),
                    old(self).depth(),
                ) + begin_struct_bytes()
                &&& final(self).depth() == crate::format::bump(
                    old(self).is_pretty(),
                    crate::format::bump(old(self).is_pretty(), old(self).depth()),
                )
            }),
    {
        let ghost p = old(self).is_pretty();
        let ghost d = old(self).depth();
        match self.open_variant(variant) {
            Ok(()) => {
            },
            Err(e) => {
                return Err(e);
            },
        }
        let r = self.serialize_seq(Some(len));
        proof {
            if r is Ok {
                if len == 0 {
                    assert(self.out@ =~= old(self).out@ + variant_open(variant@, p, d)
                        + begin_struct_bytes() + end_struct_bytes(
                        false,
                        p,
                        crate::format::bump(p, crate::format::bump(p, d)),
                    ));
                } else {
                    assert(self.out@ =~= old(self).out@ + variant_open(variant@, p, d)
                        + begin_struct_bytes());
                }
            }
        }
        r
    }

    /// A tagged variant with struct payload: the wrapper opens, then a
    /// mapping opens for the fields; the cursor's struct-variant ending
    /// closes both.
    pub fn serialize_struct_variant(&mut self, variant: &str, len: usize) -> (r: Result<
        Compound,
        SerError,
    >)
        requires
            old(self).wf(),
        ensures
            final(self).wf(),
            final(self).is_pretty() == old(self).is_pretty(),
            !old(self).is_pretty() ==> final(self).formatter == old(self).formatter,
            r is Ok,
            r matches Ok(c) ==> (if len == 0 {
                &&& c.state == State::Empty
                &&& final(self).out@ == old(self).out@ + variant_open(
                    variant@,
                    old(self).is_pretty(),
                    old(self).depth(),
                ) + begin_struct_bytes() + end_struct_bytes(
                    false,
                    old(self).is_pretty(),
                    crate::format::bump(
                        old(self).is_pretty(),
                        crate::format::bump(old(self).is_pretty(), old(self).depth()),
                    ),
                )
                &&& final(self).depth() == crate::format::bump(
                    old(self).is_pretty(),
                    old(self).depth(),
                )
            } else {
                &&& c.state == State::First
                &&& final(self).out@ == old(self).out@ + variant_open(
                    variant@,
                    old(self).is_pretty(),
                    old(self).depth(),
                ) + begin_struct_bytes()
                &&& final(self).depth() == crate::format::bump(
                    old(self).is_pretty(),
                    crate::format::bump(old(self).is_pretty(), old(self).depth()),
                )
            }),
    {
        let ghost p = old(self).is_pretty();
        let ghost d = old(self).depth();
        match self.open_variant(variant) {
            Ok(()) => {
            },
            Err(e) => {
                return Err(e);
            },
        }
        let r = self.serialize_map(Some(len));
        proof {
            if r is Ok {
                if len == 0 {
                    assert(self.out@ =~= old(self).out@ + variant_open(variant@, p, d)
                        + begin_struct_bytes() + end_struct_bytes(
                        false,
                        p,
                        crate::format::bump(p, crate::format::bump(p, d)),
                    ));
                } else {
                    assert(self.out@ =~= old(self).out@ + variant_open(variant@, p, d)
                        + begin_struct_bytes());
                }
            }
        }
        r
    }

    /// Serializes the whole interior of a sequence: opens it, feeds every
    /// element through the cursor, and ends it.
    #[verifier::rlimit(100)]
    fn serialize_items(&mut self, elems: &Vec<Value>) -> (r: Result<(), SerError>)
        requires
            old(self).wf(),
        ensures
            final(self).wf(),
            final(self).is_pretty() == old(self).is_pretty(),
            !old(self).is_pretty() ==> final(self).formatter == old(self).formatter,
            old(self).out@.is_prefix_of(final(self).out@),
            r is Ok <==> (forall|j: int| 0 <= j < elems@.len() ==> valid_value(#[trigger] elems@[j])),
            r is Ok ==> final(self).out@ == old(self).out@ + begin_struct_bytes()
                + crate::value::render_items(
                elems@,
                old(self).is_pretty(),
                crate::format::bump(old(self).is_pretty(), old(self).depth()),
            ) + end_struct_bytes(
                elems@.len() > 0,
                old(self).is_pretty(),
                crate::format::bump(old(self).is_pretty(), old(self).depth()),
            ) && final(self).depth() == old(self).depth(),
            r matches Err(e) ==> (e is KeyMustBeStringOrNumber || e is Custom),
        decreases *elems, 0nat,
    {
        let ghost p = old(self).is_pretty();
        let ghost d = old(self).depth();
        let ghost d1 = crate::format::bump(p, d);
        let ghost base = old(self).out@;
        let len = elems.len();
        let mut c = self.serialize_seq(Some(len)).unwrap();
        let mut i: usize = 0;
        while i < len
            invariant
                len == elems@.len(),
                i <= len,
                self.wf(),
                p == old(self).is_pretty(),
                d == old(self).depth(),
                base == old(self).out@,
                self.is_pretty() == p,
                d1 == crate::format::bump(p, d),
                !p ==> self.formatter == old(self).formatter,
                len > 0 ==> c.state == (if i == 0 {
                    State::First
                } else {
                    State::Rest
                }),
                len > 0 ==> self.out@ == base + begin_struct_bytes()
                    + crate::value::render_items(elems@.take(i as int), p, d1),
                len > 0 ==> self.depth() == d1,
                len == 0 ==> c.state == State::Empty && self.out@ == base + begin_struct_bytes()
                    + end_struct_bytes(false, p, d1) && self.depth() == d,
                forall|j: int| 0 <= j < i ==> valid_value(#[trigger] elems@[j]),
            decreases len - i,
        {
            let ghost pre_out = self.out@;
            proof {
                assert(decreases_to!(*elems => elems@));
                assert(decreases_to!(elems@ => elems@[i as int]));
            }
            match c.serialize_element(self, &elems[i]) {
                Ok(()) => {
                    proof {
                        let t = elems@.take(i as int + 1);
                        assert(t.drop_last() =~= elems@.take(i as int));
                        assert(t.last() == elems@[i as int]);
                        assert(crate::value::render_items(t, p, d1) == crate::value::render_items(
                            elems@.take(i as int),
                            p,
                            d1,
                        ) + crate::format::elem_open_bytes(i == 0, p, d1) + render(
                            elems@[i as int],
                            p,
                            d1,
                        ));
                        assert(self.out@ =~= base + begin_struct_bytes()
                            + crate::value::render_items(t, p, d1));
                    }
                    i += 1;
                },
                Err(e) => {
                    proof {
                        crate::format::lemma_prefix_append(
                            base,
                            begin_struct_bytes() + crate::value::render_items(
                                elems@.take(i as int),
                                p,
                                d1,
                            ),
                        );
                        assert(pre_out =~= base + (begin_struct_bytes()
                            + crate::value::render_items(elems@.take(i as int), p, d1)));
                        crate::format::lemma_prefix_trans(base, pre_out, self.out@);
                    }
                    return Err(e);
                },
            }
        }
        proof {
            assert(elems@.take(len as int) =~= elems@);
        }
        let r = c.end_seq(self);
        proof {
            if len == 0 {
                assert(crate::value::render_items(elems@, p, d1) =~= Seq::<u8>::empty());
            }
            assert(self.out@ =~= base + begin_struct_bytes() + crate::value::render_items(
                elems@,
                p,
                d1,
            ) + end_struct_bytes(len > 0, p, d1));
            crate::format::lemma_prefix_append(
                base,
                begin_struct_bytes() + crate::value::render_items(elems@, p, d1)
                    + end_struct_bytes(len > 0, p, d1),
            );
            assert(self.out@ =~= base + (begin_struct_bytes() + crate::value::render_items(
                elems@,
                p,
                d1,
            ) + end_struct_bytes(len > 0, p, d1)));
        }
        r
    }

    /// Serializes the whole interior of a mapping: opens it and feeds every
    /// entry, key then value, through the cursor, and ends it.
    #[verifier::rlimit(100)]
    fn serialize_entries(&mut self, entries: &Vec<(Value, Value)>) -> (r: Result<(), SerError>)
        requires
            old(self).wf(),
        ensures
            final(self).wf(),
            final(self).is_pretty() == old(self).is_pretty(),
            !old(self).is_pretty() ==> final(self).formatter == old(self).formatter,
            old(self).out@.is_prefix_of(final(self).out@),
            r is Ok <==> (forall|j: int| #![trigger entries@[j]]
                0 <= j < entries@.len() ==> crate::value::key_ok(entries@[j].0) && valid_value(
                    entries@[j].1,
                )),
            r is Ok ==> final(self).out@ == old(self).out@ + begin_struct_bytes()
                + crate::value::render_entries(
                entries@,
                old(self).is_pretty(),
                crate::format::bump(old(self).is_pretty(), old(self).depth()),
            ) + end_struct_bytes(
                entries@.len() > 0,
                old(self).is_pretty(),
                crate::format::bump(old(self).is_pretty(), old(self).depth()),
            ) && final(self).depth() == old(self).depth(),
            r matches Err(e) ==> (e is KeyMustBeStringOrNumber || e is Custom),
        decreases *entries, 0nat,
    {
        let ghost p = old(self).is_pretty();
        let ghost d = old(self).depth();
        let ghost d1 = crate::format::bump(p, d);
        let ghost base = old(self).out@;
        let len = entries.len();
        let mut c = self.serialize_map(Some(len)).unwrap();
        let mut i: usize = 0;
        while i < len
            invariant
                len == entries@.len(),
                i <= len,
                self.wf(),
                p == old(self).is_pretty(),
                d == old(self).depth(),
                base == old(self).out@,
                self.is_pretty() == p,
                d1 == crate::format::bump(p, d),
                !p ==> self.formatter == old(self).formatter,
                len > 0 ==> c.state == (if i == 0 {
                    State::First
                } else {
                    State::Rest
                }),
                len > 0 ==> self.out@ == base + begin_struct_bytes()
                    + crate::value::render_entries(entries@.take(i as int), p, d1),
                len > 0 ==> self.depth() == d1,
                len == 0 ==> c.state == State::Empty && self.out@ == base + begin_struct_bytes()
                    + end_struct_bytes(false, p, d1) && self.depth() == d,
                forall|j: int| #![trigger entries@[j]]
                    0 <= j < i ==> crate::value::key_ok(entries@[j].0) && valid_value(
                        entries@[j].1,
                    ),
            decreases len - i,
        {
            let ghost pre_out = self.out@;
            proof {
                crate::format::lemma_prefix_append(
                    base,
                    begin_struct_bytes() + crate::value::render_entries(
                        entries@.take(i as int),
                        p,
                        d1,
                    ),
                );
                assert(pre_out =~= base + (begin_struct_bytes() + crate::value::render_entries(
                    entries@.take(i as int),
                    p,
                    d1,
                )));
            }
            let entry = &entries[i];
            proof {
                assert(*entry == entries@[i as int]);
            }
            match c.serialize_key(self, &entry.0) {
                Ok(()) => {
                    proof {
                        assert(crate::value::key_ok(entries@[i as int].0));
                    }
                },
                Err(e) => {
                    proof {
                        crate::format::lemma_prefix_trans(base, pre_out, self.out@);
                    }
                    return Err(e);
                },
            }
            let ghost after_key = self.out@;
            proof {
                assert(decreases_to!(*entries => entries@));
                assert(decreases_to!(entries@ => entries@[i as int]));
                assert(decreases_to!(entries@[i as int] => entries@[i as int].1));
            }
            match c.serialize_value(self, &entry.1) {
                Ok(()) => {
                    proof {
                        let t = entries@.take(i as int + 1);
                        assert(t.drop_last() =~= entries@.take(i as int));
                        assert(t.last() == entries@[i as int]);
                        assert(crate::value::render_entries(t, p, d1)
                            == crate::value::render_entries(entries@.take(i as int), p, d1)
                            + crate::format::key_open_bytes(i == 0, p, d1)
                            + crate::value::render_key(entries@[i as int].0)
                            + crate::format::key_close_bytes() + crate::format::value_open_bytes(p)
                            + render(entries@[i as int].1, p, d1));
                        assert(self.out@ =~= base + begin_struct_bytes()
                            + crate::value::render_entries(t, p, d1));
                        assert(valid_value(entries@[i as int].1));
                        assert forall|j: int| #![trigger entries@[j]] 0 <= j <= i implies
                            crate::value::key_ok(entries@[j].0) && valid_value(entries@[j].1) by {
                            if j < i {
                                assert(crate::value::key_ok(entries@[j].0) && valid_value(
                                    entries@[j].1,
                                ));
                            }
                        }
                    }
                    i += 1;
                },
                Err(e) => {
                    proof {
                        crate::format::lemma_prefix_trans(base, pre_out, after_key);
                        crate::format::lemma_prefix_trans(base, after_key, self.out@);
                    }
                    return Err(e);
                },
            }
        }
        proof {
            assert(entries@.take(len as int) =~= entries@);
        }
        let r = c.end_map(self);
        proof {
            if len == 0 {
                assert(crate::value::render_entries(entries@, p, d1) =~= Seq::<u8>::empty());
            }
            assert(self.out@ =~= base + begin_struct_bytes() + crate::value::render_entries(
                entries@,
                p,
                d1,
            ) + end_struct_bytes(len > 0, p, d1));
            crate::format::lemma_prefix_append(
                base,
                begin_struct_bytes() + crate::value::render_entries(entries@, p, d1)
                    + end_struct_bytes(len > 0, p, d1),
            );
            assert(self.out@ =~= base + (begin_struct_bytes() + crate::value::render_entries(
                entries@,
                p,
                d1,
            ) + end_struct_bytes(len > 0, p, d1)));
        }
        r
    }

    /// Serializes the whole interior of a struct-like value: opens a
    /// mapping and feeds every field, name then value, and ends it.
    #[verifier::rlimit(100)]
    fn serialize_named_fields(&mut self, fields: &Vec<(String, Value)>) -> (r: Result<
        (),
        SerError,
    >)
        requires
            old(self).wf(),
        ensures
            final(self).wf(),
            final(self).is_pretty() == old(self).is_pretty(),
            !old(self).is_pretty() ==> final(self).formatter == old(self).formatter,
            old(self).out@.is_prefix_of(final(self).out@),
            r is Ok <==> (forall|j: int| #![trigger fields@[j]]
                0 <= j < fields@.len() ==> valid_value(fields@[j].1)),
            r is Ok ==> final(self).out@ == old(self).out@ + begin_struct_bytes()
                + crate::value::render_fields(
                fields@,
                old(self).is_pretty(),
                crate::format::bump(old(self).is_pretty(), old(self).depth()),
            ) + end_struct_bytes(
                fields@.len() > 0,
                old(self).is_pretty(),
                crate::format::bump(old(self).is_pretty(), old(self).depth()),
            ) && final(self).depth() == old(self).depth(),
            r matches Err(e) ==> (e is KeyMustBeStringOrNumber || e is Custom),
        decreases *fields, 0nat,
    {
        let ghost p = old(self).is_pretty();
        let ghost d = old(self).depth();
        let ghost d1 = crate::format::bump(p, d);
        let ghost base = old(self).out@;
        let len = fields.len();
        let mut c = self.serialize_map(Some(len)).unwrap();
        let mut i: usize = 0;
        while i < len
            invariant
                len == fields@.len(),
                i <= len,
                self.wf(),
                p == old(self).is_pretty(),
                d == old(self).depth(),
                base == old(self).out@,
                self.is_pretty() == p,
                d1 == crate::format::bump(p, d),
                !p ==> self.formatter == old(self).formatter,
                len > 0 ==> c.state == (if i == 0 {
                    State::First
                } else {
                    State::Rest
                }),
                len > 0 ==> self.out@ == base + begin_struct_bytes()
                    + crate::value::render_fields(fields@.take(i as int), p, d1),
                len > 0 ==> self.depth() == d1,
                len == 0 ==> c.state == State::Empty && self.out@ == base + begin_struct_bytes()
                    + end_struct_bytes(false, p, d1) && self.depth() == d,
                forall|j: int| #![trigger fields@[j]]
                    0 <= j < i ==> valid_value(fields@[j].1),
            decreases len - i,
        {
            let ghost pre_out = self.out@;
            proof {
                crate::format::lemma_prefix_append(
                    base,
                    begin_struct_bytes() + crate::value::render_fields(
                        fields@.take(i as int),
                        p,
                        d1,
                    ),
                );
                assert(pre_out =~= base + (begin_struct_bytes() + crate::value::render_fields(
                    fields@.take(i as int),
                    p,
                    d1,
                )));
                assert(decreases_to!(*fields => fields@));
                assert(decreases_to!(fields@ => fields@[i as int]));
                assert(decreases_to!(fields@[i as int] => fields@[i as int].1));
            }
            let field = &fields[i];
            match c.serialize_field(self, field.0.as_str(), &field.1) {
                Ok(()) => {
                    proof {
                        let t = fields@.take(i as int + 1);
                        assert(t.drop_last() =~= fields@.take(i as int));
                        assert(t.last() == fields@[i as int]);
                        assert(crate::value::render_fields(t, p, d1)
                            == crate::value::render_fields(fields@.take(i as int), p, d1)
                            + crate::format::key_open_bytes(i == 0, p, d1) + str_lit(
                            encode_utf8(fields@[i as int].0@),
                        ) + crate::format::key_close_bytes() + crate::format::value_open_bytes(p)
                            + render(fields@[i as int].1, p, d1));
                        assert(self.out@ =~= base + begin_struct_bytes()
                            + crate::value::render_fields(t, p, d1));
                    }
                    i += 1;
                },
                Err(e) => {
                    proof {
                        crate::format::lemma_prefix_trans(base, pre_out, self.out@);
                    }
                    return Err(e);
                },
            }
        }
        proof {
            assert(fields@.take(len as int) =~= fields@);
        }
        let r = c.end_map(self);
        proof {
            if len == 0 {
                assert(crate::value::render_fields(fields@, p, d1) =~= Seq::<u8>::empty());
            }
            assert(self.out@ =~= base + begin_struct_bytes() + crate::value::render_fields(
                fields@,
                p,
                d1,
            ) + end_struct_bytes(len > 0, p, d1));
            crate::format::lemma_prefix_append(
                base,
                begin_struct_bytes() + crate::value::render_fields(fields@, p, d1)
                    + end_struct_bytes(len > 0, p, d1),
            );
            assert(self.out@ =~= base + (begin_struct_bytes() + crate::value::render_fields(
                fields@,
                p,
                d1,
            ) + end_struct_bytes(len > 0, p, d1)));
        }
        r
    }

    /// Serializes a whole value: scalars are written directly, compound
    /// values through a cursor, exactly as a caller driving the push
    /// interface entry by entry would. On success the sink grows by
    /// precisely the value's rendering at the current depth and the depth is
    /// restored; a rejected mapping key or a malformed numeric literal
    /// aborts the walk, leaving the bytes already written in place.
    #[verifier::rlimit(100)]
    pub fn serialize_value(&mut self, v: &Value) -> (r: Result<(), SerError>)
        requires
            old(self).wf(),
        ensures
            final(self).wf(),
            final(self).is_pretty() == old(self).is_pretty(),
            !old(self).is_pretty() ==> final(self).formatter == old(self).formatter,
            old(self).out@.is_prefix_of(final(self).out@),
            r is Ok <==> valid_value(*v),
            r is Ok ==> final(self).out@ == old(self).out@ + render(
                *v,
                old(self).is_pretty(),
                old(self).depth(),
            ) && final(self).depth() == old(self).depth(),
            r matches Err(e) ==> (e is KeyMustBeStringOrNumber || e is Custom),
        decreases *v, 0nat,
    {
        let ghost p = old(self).is_pretty();
        let ghost d = old(self).depth();
        let ghost d1 = crate::format::bump(p, d);
        let ghost base = old(self).out@;
        proof {
            assert(base =~= base.subrange(0, base.len() as int));
        }
        match v {
            Value::Unit => {
                let r = self.serialize_unit();
                proof {
                    crate::format::lemma_prefix_append(base, nil_bytes());
                }
                r
            },
            Value::Bool(b) => {
                let r = self.serialize_bool(*b);
                proof {
                    crate::format::lemma_prefix_append(base, bool_bytes(*b));
                }
                r
            },
            Value::Int(i) => {
                let r = self.serialize_i64(*i);
                proof {
                    crate::format::lemma_prefix_append(base, fmt_i64(*i));
                }
                r
            },
            Value::UInt(u) => {
                let r = self.serialize_u64(*u);
                proof {
                    crate::format::lemma_prefix_append(base, fmt_u64(*u));
                }
                r
            },
            Value::Number(t) => {
                if crate::format::num_token_ok(t.as_slice()) {
                    let r = self.serialize_number_token(t.as_slice());
                    proof {
                        crate::format::lemma_prefix_append(base, t@);
                    }
                    r
                } else {
                    Err(SerError::Custom(String::from_str("invalid numeric literal")))
                }
            },
            Value::Char(c) => {
                let r = self.serialize_char(*c);
                proof {
                    crate::format::lemma_prefix_append(base, str_lit(encode_utf8(seq![*c])));
                }
                r
            },
            Value::Str(s) => {
                let r = self.serialize_str(s.as_str());
                proof {
                    crate::format::lemma_prefix_append(base, str_lit(encode_utf8(s@)));
                }
                r
            },
            Value::Bytes(bs) => {
                let r = self.serialize_bytes(bs.as_slice());
                proof {
                    assert(self.out@ =~= base + render(*v, p, d));
                    crate::format::lemma_prefix_append(base, render(*v, p, d));
                }
                r
            },
            Value::UnitVariant(name) => {
                let r = self.serialize_unit_variant(name.as_str());
                proof {
                    crate::format::lemma_prefix_append(base, str_lit(encode_utf8(name@)));
                }
                r
            },
            Value::NewtypeVariant(name, val) => {
                proof {
                    assert(decreases_to!(*v => v->NewtypeVariant_1));
                }
                let r = self.serialize_newtype_variant(name.as_str(), &**val);
                proof {
                    if r is Ok {
                        assert(self.out@ =~= base + render(*v, p, d));
                        crate::format::lemma_prefix_append(base, render(*v, p, d));
                        assert(self.out@ =~= base + (render(*v, p, d)));
                    }
                }
                r
            },
            Value::Sequence(elems) => {
                proof {
                    assert(decreases_to!(*v => v->Sequence_0));
                }
                let r = self.serialize_items(elems);
                proof {
                    if r is Ok {
                        assert(self.out@ =~= base + render(*v, p, d));
                        assert(self.out@ =~= base + (render(*v, p, d)));
                    }
                    assert(valid_value(*v) == (forall|j: int|
                        0 <= j < elems@.len() ==> valid_value(#[trigger] elems@[j])));
                }
                r
            },
            Value::Mapping(entries) => {
                proof {
                    assert(decreases_to!(*v => v->Mapping_0));
                }
                let r = self.serialize_entries(entries);
                proof {
                    if r is Ok {
                        assert(self.out@ =~= base + render(*v, p, d));
                        assert(self.out@ =~= base + (render(*v, p, d)));
                    }
                    assert(valid_value(*v) == (forall|j: int| #![trigger entries@[j]]
                        0 <= j < entries@.len() ==> crate::value::key_ok(entries@[j].0)
                            && valid_value(entries@[j].1)));
                }
                r
            },
            Value::TupleVariant(name, elems) => {
                match self.open_variant(name.as_str()) {
                    Ok(()) => {
                    },
                    Err(e) => {
                        return Err(e);
                    },
                }
                let ghost mid = self.out@;
                proof {
                    crate::format::lemma_prefix_append(base, variant_open(name@, p, d));
                    assert(decreases_to!(*v => v->TupleVariant_1));
                }
                match self.serialize_items(elems) {
                    Ok(()) => {
                        self.formatter.end_object_value(&mut self.out);
                        self.formatter.end_struct(&mut self.out, true);
                        proof {
                            assert(self.out@ =~= base + render(*v, p, d));
                            assert(self.out@ =~= base + (render(*v, p, d)));
                            crate::format::lemma_prefix_append(base, render(*v, p, d));
                            assert(valid_value(*v) == (forall|j: int|
                                0 <= j < elems@.len() ==> valid_value(#[trigger] elems@[j])));
                        }
                        Ok(())
                    },
                    Err(e) => {
                        proof {
                            crate::format::lemma_prefix_trans(base, mid, self.out@);
                            assert(valid_value(*v) == (forall|j: int|
                                0 <= j < elems@.len() ==> valid_value(#[trigger] elems@[j])));
                        }
                        Err(e)
                    },
                }
            },
            Value::StructVariant(name, fields) => {
                match self.open_variant(name.as_str()) {
                    Ok(()) => {
                    },
                    Err(e) => {
                        return Err(e);
                    },
                }
                let ghost mid = self.out@;
                proof {
                    crate::format::lemma_prefix_append(base, variant_open(name@, p, d));
                    assert(decreases_to!(*v => v->StructVariant_1));
                }
                match self.serialize_named_fields(fields) {
                    Ok(()) => {
                        self.formatter.end_object_value(&mut self.out);
                        self.formatter.end_struct(&mut self.out, true);
                        proof {
                            assert(self.out@ =~= base + render(*v, p, d));
                            assert(self.out@ =~= base + (render(*v, p, d)));
                            crate::format::lemma_prefix_append(base, render(*v, p, d));
                            assert(valid_value(*v) == (forall|j: int| #![trigger fields@[j]]
                                0 <= j < fields@.len() ==> valid_value(fields@[j].1)));
                        }
                        Ok(())
                    },
                    Err(e) => {
                        proof {
                            crate::format::lemma_prefix_trans(base, mid, self.out@);
                            assert(valid_value(*v) == (forall|j: int| #![trigger fields@[j]]
                                0 <= j < fields@.len() ==> valid_value(fields@[j].1)));
                        }
                        Err(e)
                    },
                }
            },
        }
    }
}



/// Writes a complete string literal: opening delimiter, escaped contents,
/// closing delimiter.
pub fn format_escaped_str(out: &mut Vec<u8>, formatter: &Formatter, value: &str) -> (r: Result<
    (),
    SerError,
>)
    ensures
        final(out)@ == old(out)@ + str_lit(encode_utf8(value@)),
        r is Ok,
{
    formatter.begin_string(out);
    formatter.write_string_contents(out, value.as_bytes());
    formatter.end_string(out);
    proof {
        assert(out@ =~= old(out)@ + str_lit(encode_utf8(value@)));
    }
    Ok(())
}

/// Relies on char::encode_utf8: the UTF-8 bytes of the one character, as
/// vstd's encoding function gives them for the one-character sequence.
#[verifier::external_body]
fn char_utf8_bytes(c: char) -> (r: Vec<u8>)
    ensures
        r@ == encode_utf8(seq![c]),
{
    let mut buf = [0u8; 4];
    c.encode_utf8(&mut buf).as_bytes().to_vec()
}

} // verus!
