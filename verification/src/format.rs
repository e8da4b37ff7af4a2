//! Output styles and the exact bytes each structural token and scalar
//! literal contributes to the sink.
//!
//! The serializer emits Lua table-literal text: `{` and `}` delimit both
//! sequences and mappings, `,` separates entries, a mapping entry is written
//! `[key]=value`, strings are double-quoted with backslash escapes, and the
//! null literal is `nil`. The compact style inserts no whitespace at all;
//! the pretty style adds a newline and two spaces of indentation per nesting
//! level, and puts spaces around the `=` of a mapping entry.

use vstd::prelude::*;

verus! {

pub const QUOTE: u8 = 34;
pub const BACKSLASH: u8 = 92;
pub const COMMA: u8 = 44;
pub const LBRACE: u8 = 123;
pub const RBRACE: u8 = 125;
pub const LBRACKET: u8 = 91;
pub const RBRACKET: u8 = 93;
pub const EQUALS: u8 = 61;
pub const NEWLINE: u8 = 10;
pub const SPACE: u8 = 32;

/// The whitespace bytes that the pretty style inserts and that the
/// compact style never emits outside string contents.
pub open spec fn is_ws_byte(b: u8) -> bool {
    b == SPACE || b == 9 || b == NEWLINE || b == 13
}

/// `n` space bytes.
pub open spec fn spaces(n: nat) -> Seq<u8> {
    Seq::new(n, |i: int| SPACE)
}

/// A line break followed by the indentation for nesting depth `depth`.
pub open spec fn nl_indent(depth: nat) -> Seq<u8> {
    seq![NEWLINE] + spaces(2 * depth)
}

/// The null literal.
pub open spec fn nil_bytes() -> Seq<u8> {
    seq![110u8, 105u8, 108u8]
}

/// The boolean literals.
pub open spec fn bool_bytes(v: bool) -> Seq<u8> {
    if v {
        seq![116u8, 114u8, 117u8, 101u8]
    } else {
        seq![102u8, 97u8, 108u8, 115u8, 101u8]
    }
}

/// The decimal digits of `n`, most significant first.
pub open spec fn dec_rep(n: nat) -> Seq<u8>
    decreases n,
{
    if n < 10 {
        seq![(48 + n) as u8]
    } else {
        dec_rep(n / 10) + seq![(48 + n % 10) as u8]
    }
}

/// The literal for an unsigned integer.
pub open spec fn fmt_u64(v: u64) -> Seq<u8> {
    dec_rep(v as nat)
}

/// The literal for a signed integer: a minus sign before the magnitude
/// when the value is negative.
pub open spec fn fmt_i64(v: i64) -> Seq<u8> {
    if v >= 0 {
        dec_rep(v as nat)
    } else {
        seq![45u8] + dec_rep((-(v as int)) as nat)
    }
}

/// How one byte of string contents is written: the delimiter and the escape
/// character are backslash-escaped, the control bytes with a short Lua
/// escape use it, the remaining control bytes get a three-digit decimal
/// escape, and every other byte (multi-byte sequences included) passes
/// through verbatim.
pub open spec fn escape_byte(b: u8) -> Seq<u8> {
    if b == QUOTE {
        seq![BACKSLASH, QUOTE]
    } else if b == BACKSLASH {
        seq![BACKSLASH, BACKSLASH]
    } else if b == NEWLINE {
        seq![BACKSLASH, 110u8]
    } else if b == 13 {
        seq![BACKSLASH, 114u8]
    } else if b == 9 {
        seq![BACKSLASH, 116u8]
    } else if b < 32 {
        seq![BACKSLASH, 48u8, (48 + b / 10) as u8, (48 + b % 10) as u8]
    } else {
        seq![b]
    }
}

/// The escaped form of string contents, byte by byte.
pub open spec fn escape_bytes(s: Seq<u8>) -> Seq<u8>
    decreases s.len(),
{
    if s.len() == 0 {
        Seq::empty()
    } else {
        escape_byte(s[0]) + escape_bytes(s.drop_first())
    }
}

/// A complete string literal: delimiter, escaped contents, delimiter.
pub open spec fn str_lit(contents: Seq<u8>) -> Seq<u8> {
    seq![QUOTE] + escape_bytes(contents) + seq![QUOTE]
}

/// The opening delimiter of a sequence or mapping (the same brace in Lua).
pub open spec fn begin_struct_bytes() -> Seq<u8> {
    seq![LBRACE]
}

/// The closing delimiter. In the pretty style a structure that received at
/// least one entry gets a closing line break and the enclosing level's
/// indentation first; `depth` is the nesting depth inside the structure.
pub open spec fn end_struct_bytes(had_value: bool, pretty: bool, depth: nat) -> Seq<u8> {
    if pretty && had_value {
        nl_indent((depth - 1) as nat) + seq![RBRACE]
    } else {
        seq![RBRACE]
    }
}

/// What precedes a sequence element: a comma unless it is the first, and in
/// the pretty style a line break with the current indentation.
pub open spec fn elem_open_bytes(first: bool, pretty: bool, depth: nat) -> Seq<u8> {
    let sep: Seq<u8> = if first {
        Seq::empty()
    } else {
        seq![COMMA]
    };
    if pretty {
        sep + nl_indent(depth)
    } else {
        sep
    }
}

/// What precedes a mapping key: the element separator logic, then the
/// opening bracket of the `[key]` form.
pub open spec fn key_open_bytes(first: bool, pretty: bool, depth: nat) -> Seq<u8> {
    elem_open_bytes(first, pretty, depth) + seq![LBRACKET]
}

/// The closing bracket of the `[key]` form.
pub open spec fn key_close_bytes() -> Seq<u8> {
    seq![RBRACKET]
}

/// What separates a mapping key from its value: `=`, spaced in pretty style.
pub open spec fn value_open_bytes(pretty: bool) -> Seq<u8> {
    if pretty {
        seq![SPACE, EQUALS, SPACE]
    } else {
        seq![EQUALS]
    }
}

/// The byte alphabet of a caller-supplied numeric literal: decimal and hex
/// digits, sign, point, exponent and hex markers. It holds no whitespace.
pub open spec fn is_num_byte(b: u8) -> bool {
    (48 <= b && b <= 57) || b == 45 || b == 43 || b == 46 || (97 <= b && b <= 102) || (65 <= b
        && b <= 70) || b == 120 || b == 88
}

/// A well-formed numeric literal: nonempty, over the numeric alphabet.
pub open spec fn num_token_wf(t: Seq<u8>) -> bool {
    t.len() > 0 && (forall|i: int| 0 <= i < t.len() ==> is_num_byte(t[i]))
}

/// The nesting depth inside a newly opened structure: one deeper in the
/// pretty style; the compact style tracks no depth and stays at zero.
pub open spec fn bump(pretty: bool, depth: nat) -> nat {
    if pretty {
        depth + 1
    } else {
        0
    }
}

/// Checks a caller-supplied numeric literal against the numeric alphabet.
pub fn num_token_ok(token: &[u8]) -> (b: bool)
    ensures
        b == num_token_wf(token@),
{
    if token.len() == 0 {
        return false;
    }
    let mut i: usize = 0;
    while i < token.len()
        invariant
            i <= token@.len(),
            forall|j: int| 0 <= j < i ==> is_num_byte(token@[j]),
        decreases token@.len() - i,
    {
        let b = token[i];
        let ok = (48 <= b && b <= 57) || b == 45 || b == 43 || b == 46 || (97 <= b && b <= 102) || (
        65 <= b && b <= 70) || b == 120 || b == 88;
        if !ok {
            return false;
        }
        i += 1;
    }
    true
}

/// What is already in the sink stays: appending extends to a longer
/// sequence with the old one as a prefix.
pub proof fn lemma_prefix_append(a: Seq<u8>, b: Seq<u8>)
    ensures
        a.is_prefix_of(a + b),
{
    assert(a =~= (a + b).subrange(0, a.len() as int));
}

/// Prefix of a prefix is a prefix.
pub proof fn lemma_prefix_trans(a: Seq<u8>, b: Seq<u8>, c: Seq<u8>)
    requires
        a.is_prefix_of(b),
        b.is_prefix_of(c),
    ensures
        a.is_prefix_of(c),
{
    assert(a =~= c.subrange(0, a.len() as int));
}

/// The output style: compact emits no whitespace; pretty tracks the current
/// indentation (two space bytes per nesting level) in a buffer that grows at
/// every opening delimiter and shrinks at the matching closing one.
pub enum Formatter {
    Compact,
    Pretty { indent: Vec<u8> },
}

impl Formatter {
    /// Whether this is the pretty style.
    pub open spec fn is_pretty(&self) -> bool {
        match self {
            Formatter::Compact => false,
            Formatter::Pretty { .. } => true,
        }
    }

    /// The current nesting depth (always zero for the compact style).
    pub open spec fn depth(&self) -> nat {
        match self {
            Formatter::Compact => 0,
            Formatter::Pretty { indent } => indent@.len() / 2,
        }
    }

    /// The indentation buffer holds exactly two spaces per nesting level.
    pub open spec fn wf(&self) -> bool {
        match self {
            Formatter::Compact => true,
            Formatter::Pretty { indent } => indent@ == spaces(indent@.len()) && indent@.len() % 2
                == 0,
        }
    }

    /// A fresh pretty formatter at depth zero.
    pub fn new_pretty() -> (f: Formatter)
        ensures
            f.wf(),
            f.is_pretty(),
            f.depth() == 0,
    {
        let f = Formatter::Pretty { indent: Vec::new() };
        proof {
            assert(f->Pretty_indent@ =~= spaces(0));
        }
        f
    }

    /// Writes the opening delimiter of a sequence or mapping and, in the
    /// pretty style, descends one nesting level.
    pub fn begin_struct(&mut self, out: &mut Vec<u8>)
        requires
            old(self).wf(),
        ensures
            final(self).wf(),
            final(self).is_pretty() == old(self).is_pretty(),
            final(self).is_pretty() ==> final(self).depth() == old(self).depth() + 1,
            !final(self).is_pretty() ==> *final(self) == *old(self),
            final(out)@ == old(out)@ + begin_struct_bytes(),
    {
        out.push(LBRACE);
        match self {
            Formatter::Compact => {
            },
            Formatter::Pretty { indent } => {
                let ghost n = indent@.len();
                indent.push(SPACE);
                indent.push(SPACE);
                proof {
                    assert(indent@ =~= spaces(n + 2));
                }
            },
        }
        proof {
            assert(out@ =~= old(out)@ + begin_struct_bytes());
        }
    }

    /// Writes the closing delimiter and, in the pretty style, returns to the
    /// enclosing nesting level, with a closing line break first when the
    /// structure received at least one entry.
    pub fn end_struct(&mut self, out: &mut Vec<u8>, had_value: bool)
        requires
            old(self).wf(),
            old(self).is_pretty() ==> old(self).depth() >= 1,
        ensures
            final(self).wf(),
            final(self).is_pretty() == old(self).is_pretty(),
            final(self).is_pretty() ==> final(self).depth() == old(self).depth() - 1,
            !final(self).is_pretty() ==> *final(self) == *old(self),
            final(out)@ == old(out)@ + end_struct_bytes(had_value, old(self).is_pretty(), old(self).depth()),
    {
        match self {
            Formatter::Compact => {
            },
            Formatter::Pretty { indent } => {
                let ghost n = indent@.len();
                indent.pop();
                indent.pop();
                proof {
                    assert(indent@ =~= spaces((n - 2) as nat));
                }
                if had_value {
                    write_newline_indent(indent, out);
                }
            },
        }
        out.push(RBRACE);
        proof {
            assert(out@ =~= old(out)@ + end_struct_bytes(had_value, old(self).is_pretty(), old(self).depth()));
        }
    }

    /// Writes what precedes a sequence element at the current depth.
    pub fn begin_array_value(&self, out: &mut Vec<u8>, first: bool)
        requires
            self.wf(),
        ensures
            final(out)@ == old(out)@ + elem_open_bytes(first, self.is_pretty(), self.depth()),
    {
        if !first {
            out.push(COMMA);
        }
        match self {
            Formatter::Compact => {
            },
            Formatter::Pretty { indent } => {
                write_newline_indent(indent, out);
            },
        }
        proof {
            assert(out@ =~= old(out)@ + elem_open_bytes(first, self.is_pretty(), self.depth()));
        }
    }

    /// Closes a sequence element. No style emits anything here; the method
    /// exists so every element write is wrapped in a begin/end token pair.
    pub fn end_array_value(&self, out: &mut Vec<u8>)
        ensures
            final(out)@ == old(out)@,
    {
    }

    /// Writes what precedes a mapping key: the separator logic, then the
    /// opening bracket of the `[key]` form.
    pub fn begin_object_key(&self, out: &mut Vec<u8>, first: bool)
        requires
            self.wf(),
        ensures
            final(out)@ == old(out)@ + key_open_bytes(first, self.is_pretty(), self.depth()),
    {
        self.begin_array_value(out, first);
        out.push(LBRACKET);
        proof {
            assert(out@ =~= old(out)@ + key_open_bytes(first, self.is_pretty(), self.depth()));
        }
    }

    /// Writes the closing bracket of the `[key]` form.
    pub fn end_object_key(&self, out: &mut Vec<u8>)
        ensures
            final(out)@ == old(out)@ + key_close_bytes(),
    {
        out.push(RBRACKET);
        proof {
            assert(out@ =~= old(out)@ + key_close_bytes());
        }
    }

    /// Writes the key/value separator of a mapping entry.
    pub fn begin_object_value(&self, out: &mut Vec<u8>)
        ensures
            final(out)@ == old(out)@ + value_open_bytes(self.is_pretty()),
    {
        match self {
            Formatter::Compact => {
                out.push(EQUALS);
            },
            Formatter::Pretty { .. } => {
                out.push(SPACE);
                out.push(EQUALS);
                out.push(SPACE);
            },
        }
        proof {
            assert(out@ =~= old(out)@ + value_open_bytes(self.is_pretty()));
        }
    }

    /// Closes a mapping value. No style emits anything here.
    pub fn end_object_value(&self, out: &mut Vec<u8>)
        ensures
            final(out)@ == old(out)@,
    {
    }

    /// Writes the null literal.
    pub fn write_null(&self, out: &mut Vec<u8>)
        ensures
            final(out)@ == old(out)@ + nil_bytes(),
    {
        out.push(110);
        out.push(105);
        out.push(108);
        proof {
            assert(out@ =~= old(out)@ + nil_bytes());
        }
    }

    /// Writes a boolean literal.
    pub fn write_bool(&self, out: &mut Vec<u8>, v: bool)
        ensures
            final(out)@ == old(out)@ + bool_bytes(v),
    {
        if v {
            out.push(116);
            out.push(114);
            out.push(117);
            out.push(101);
        } else {
            out.push(102);
            out.push(97);
            out.push(108);
            out.push(115);
            out.push(101);
        }
        proof {
            assert(out@ =~= old(out)@ + bool_bytes(v));
        }
    }

    /// Writes an unsigned integer literal.
    pub fn write_u64(&self, out: &mut Vec<u8>, v: u64)
        ensures
            final(out)@ == old(out)@ + fmt_u64(v),
    {
        write_dec_u64(out, v);
    }

    /// Writes a signed integer literal.
    pub fn write_i64(&self, out: &mut Vec<u8>, v: i64)
        ensures
            final(out)@ == old(out)@ + fmt_i64(v),
    {
        if v >= 0 {
            write_dec_u64(out, v as u64);
        } else {
            out.push(45);
            let magnitude: u64 = ((-(v + 1)) as u64) + 1;
            assert(magnitude as int == -(v as int));
            write_dec_u64(out, magnitude);
            proof {
                assert(out@ =~= old(out)@ + fmt_i64(v));
            }
        }
    }

    /// Writes the opening string delimiter.
    pub fn begin_string(&self, out: &mut Vec<u8>)
        ensures
            final(out)@ == old(out)@ + seq![QUOTE],
    {
        out.push(QUOTE);
        proof {
            assert(out@ =~= old(out)@ + seq![QUOTE]);
        }
    }

    /// Writes the closing string delimiter.
    pub fn end_string(&self, out: &mut Vec<u8>)
        ensures
            final(out)@ == old(out)@ + seq![QUOTE],
    {
        out.push(QUOTE);
        proof {
            assert(out@ =~= old(out)@ + seq![QUOTE]);
        }
    }

    /// Writes string contents with every byte escaped as `escape_byte` says.
    pub fn write_string_contents(&self, out: &mut Vec<u8>, contents: &[u8])
        ensures
            final(out)@ == old(out)@ + escape_bytes(contents@),
    {
        write_escaped_bytes(out, contents);
    }
}

/// A line break plus the given indentation buffer.
fn write_newline_indent(indent: &Vec<u8>, out: &mut Vec<u8>)
    ensures
        final(out)@ == old(out)@ + seq![NEWLINE] + indent@,
{
    out.push(NEWLINE);
    let mut i: usize = 0;
    while i < indent.len()
        invariant
            i <= indent.len(),
            out@ == old(out)@ + seq![NEWLINE] + indent@.take(i as int),
        decreases indent.len() - i,
    {
        let ghost prev = out@;
        out.push(indent[i]);
        proof {
            assert(indent@.take(i + 1) =~= indent@.take(i as int).push(indent@[i as int]));
            assert(out@ =~= old(out)@ + seq![NEWLINE] + indent@.take(i + 1));
        }
        i += 1;
    }
    proof {
        assert(indent@.take(indent@.len() as int) =~= indent@);
    }
}

/// Appending one byte to the contents appends its escape to the escaped form.
pub proof fn lemma_escape_bytes_snoc(s: Seq<u8>, b: u8)
    ensures
        escape_bytes(s.push(b)) == escape_bytes(s) + escape_byte(b),
    decreases s.len(),
{
    let t = s.push(b);
    if s.len() == 0 {
        assert(t.drop_first() =~= Seq::<u8>::empty());
        assert(t[0] == b);
        assert(escape_bytes(Seq::<u8>::empty()) == Seq::<u8>::empty());
        assert(escape_bytes(t) == escape_byte(b) + Seq::<u8>::empty());
        assert(escape_byte(b) + Seq::<u8>::empty() =~= escape_byte(b));
        assert(Seq::<u8>::empty() + escape_byte(b) =~= escape_byte(b));
    } else {
        assert(t[0] == s[0]);
        assert(t.drop_first() =~= s.drop_first().push(b));
        lemma_escape_bytes_snoc(s.drop_first(), b);
        assert(escape_bytes(t) == escape_byte(s[0]) + (escape_bytes(s.drop_first())
            + escape_byte(b)));
        assert(escape_bytes(s) == escape_byte(s[0]) + escape_bytes(s.drop_first()));
        assert(escape_byte(s[0]) + (escape_bytes(s.drop_first()) + escape_byte(b)) =~= (escape_byte(
            s[0],
        ) + escape_bytes(s.drop_first())) + escape_byte(b));
    }
}

/// Writes the escaped form of `contents` byte by byte.
fn write_escaped_bytes(out: &mut Vec<u8>, contents: &[u8])
    ensures
        final(out)@ == old(out)@ + escape_bytes(contents@),
{
    let mut i: usize = 0;
    proof {
        assert(contents@.take(0) =~= Seq::<u8>::empty());
        assert(out@ =~= old(out)@ + escape_bytes(contents@.take(0)));
    }
    while i < contents.len()
        invariant
            i <= contents@.len(),
            out@ == old(out)@ + escape_bytes(contents@.take(i as int)),
        decreases contents@.len() - i,
    {
        let b = contents[i];
        if b == QUOTE {
            out.push(BACKSLASH);
            out.push(QUOTE);
        } else if b == BACKSLASH {
            out.push(BACKSLASH);
            out.push(BACKSLASH);
        } else if b == NEWLINE {
            out.push(BACKSLASH);
            out.push(110);
        } else if b == 13 {
            out.push(BACKSLASH);
            out.push(114);
        } else if b == 9 {
            out.push(BACKSLASH);
            out.push(116);
        } else if b < 32 {
            out.push(BACKSLASH);
            out.push(48);
            out.push(48 + b / 10);
            out.push(48 + b % 10);
        } else {
            out.push(b);
        }
        proof {
            lemma_escape_bytes_snoc(contents@.take(i as int), b);
            assert(contents@.take(i + 1) =~= contents@.take(i as int).push(b));
            assert(out@ =~= old(out)@ + escape_bytes(contents@.take(i + 1)));
        }
        i += 1;
    }
    proof {
        assert(contents@.take(contents@.len() as int) =~= contents@);
    }
}

/// The digits of `v` in decimal, written most significant first.
fn write_dec_u64(out: &mut Vec<u8>, v: u64)
    ensures
        final(out)@ == old(out)@ + dec_rep(v as nat),
{
    let mut digits: Vec<u8> = Vec::new();
    let mut n: u64 = v;
    proof {
        assert(digits@.reverse() =~= Seq::<u8>::empty());
        assert(dec_rep(v as nat) =~= dec_rep(n as nat) + digits@.reverse());
    }
    loop
        invariant_except_break
            dec_rep(v as nat) == dec_rep(n as nat) + digits@.reverse(),
        ensures
            dec_rep(v as nat) == digits@.reverse(),
        decreases n,
    {
        let ghost prev = digits@;
        let d: u8 = 48 + (n % 10) as u8;
        digits.push(d);
        proof {
            assert(digits@.reverse() =~= seq![d] + prev.reverse());
        }
        if n < 10 {
            proof {
                assert(dec_rep(n as nat) =~= seq![d]);
                assert(dec_rep(v as nat) =~= digits@.reverse());
            }
            break ;
        }
        proof {
            assert(dec_rep(n as nat) =~= dec_rep((n / 10) as nat) + seq![d]);
            assert(dec_rep((n / 10) as nat) + digits@.reverse() =~= dec_rep(n as nat)
                + prev.reverse());
        }
        n = n / 10;
    }
    let ghost rendered = dec_rep(v as nat);
    let mut i: usize = digits.len();
    proof {
        assert(rendered.take(0) =~= Seq::<u8>::empty());
        assert(out@ =~= old(out)@ + rendered.take(0));
    }
    while i > 0
        invariant
            i <= digits@.len(),
            rendered == digits@.reverse(),
            out@ == old(out)@ + rendered.take((digits@.len() - i) as int),
        decreases i,
    {
        let ghost written = (digits@.len() - i) as int;
        out.push(digits[i - 1]);
        proof {
            assert(rendered[written] == digits@[i - 1]);
            assert(rendered.take(written + 1) =~= rendered.take(written).push(digits@[i - 1]));
            assert(out@ =~= old(out)@ + rendered.take(written + 1));
        }
        i -= 1;
    }
    proof {
        assert(rendered.take(rendered.len() as int) =~= rendered);
    }
}

} // verus!
