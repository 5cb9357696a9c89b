//! The annotated hex dump: sixteen bytes per line, in hexadecimal and as
//! ASCII, each followed by the annotations that start in those bytes.

use vstd::prelude::*;
use crate::debug::{push_value_debug, value_debug};
use crate::model::Annotation;
use crate::text::{decimal, hex_lower, push_decimal, push_hex_padded, zero_pad};

verus! {

/// Whether a byte is shown as itself in the ASCII column: a graphic ASCII
/// character or a space.
pub open spec fn is_shown(b: u8) -> bool {
    (0x21 <= b && b <= 0x7E) || b == 0x20
}

/// The ASCII column's character for a byte.
pub open spec fn shown_char(b: u8) -> char {
    if is_shown(b) { b as char } else { '.' }
}

/// The hex column's cell for byte `p`: two digits and a space, or three
/// spaces past the end of the data.
pub open spec fn hex_cell(data: Seq<u8>, p: int) -> Seq<char> {
    if p < data.len() {
        zero_pad(hex_lower(data[p] as nat), 2) + " "@
    } else {
        "   "@
    }
}

/// The first `i` cells of the hex column of the line at `start`, with an
/// extra space after the eighth.
pub open spec fn hex_cells(data: Seq<u8>, start: int, i: nat) -> Seq<char>
    decreases i,
{
    if i == 0 {
        Seq::empty()
    } else {
        hex_cells(data, start, (i - 1) as nat) + hex_cell(data, start + i - 1)
            + if i - 1 == 7 { " "@ } else { Seq::empty() }
    }
}

/// The first `i` characters of the ASCII column of the line at `start`.
pub open spec fn ascii_cells(data: Seq<u8>, start: int, i: nat) -> Seq<char>
    decreases i,
{
    if i == 0 {
        Seq::empty()
    } else {
        ascii_cells(data, start, (i - 1) as nat) + if start + i - 1 < data.len() {
            seq![shown_char(data[start + i - 1])]
        } else {
            Seq::empty()
        }
    }
}

/// The first byte an annotation covers.
pub open spec fn first_byte(a: Annotation) -> usize {
    (a.bit_start / 8) as usize
}

/// The byte after the last one an annotation covers.
pub open spec fn end_byte(a: Annotation) -> usize {
    ((a.bit_start + a.bit_length as u64 + 7) / 8) as usize
}

/// Whether an annotation covers some byte and starts at byte `p`.
pub open spec fn starts_at(a: Annotation, p: int) -> bool {
    first_byte(a) < end_byte(a) && first_byte(a) == p
}

/// The line that describes an annotation.
pub open spec fn annotation_line(a: Annotation) -> Seq<char> {
    "          ; "@ + a.field_name@ + " = "@ + value_debug(a.value) + " ("@
        + decimal(a.bit_length as nat) + " bits)\n"@
}

/// The lines of the first `n` annotations that start at byte `p`, in order.
pub open spec fn lines_at(anns: Seq<Annotation>, p: int, n: nat) -> Seq<char>
    decreases n,
{
    if n == 0 {
        Seq::empty()
    } else {
        lines_at(anns, p, (n - 1) as nat) + if starts_at(anns[n - 1], p) {
            annotation_line(anns[n - 1])
        } else {
            Seq::empty()
        }
    }
}

/// The annotation lines for the first `i` bytes of the line at `start`.
pub open spec fn line_annotations(anns: Seq<Annotation>, start: int, i: nat) -> Seq<char>
    decreases i,
{
    if i == 0 {
        Seq::empty()
    } else {
        line_annotations(anns, start, (i - 1) as nat) + lines_at(anns, start + i - 1, anns.len())
    }
}

/// One line of the dump: the offset in eight hex digits, the hex column,
/// the ASCII column between bars, then the annotations of the line's bytes.
pub open spec fn dump_line(data: Seq<u8>, anns: Seq<Annotation>, start: int) -> Seq<char> {
    zero_pad(hex_lower(start as nat), 8) + "  "@ + hex_cells(data, start, 16) + " |"@
        + ascii_cells(data, start, 16) + "|\n"@ + line_annotations(anns, start, 16)
}

/// The first `k` lines of the dump.
pub open spec fn dump_lines(data: Seq<u8>, anns: Seq<Annotation>, k: nat) -> Seq<char>
    decreases k,
{
    if k == 0 {
        Seq::empty()
    } else {
        dump_lines(data, anns, (k - 1) as nat) + dump_line(data, anns, 16 * (k - 1))
    }
}

/// The whole dump: one line per sixteen bytes.
pub open spec fn hex_dump(data: Seq<u8>, anns: Seq<Annotation>) -> Seq<char> {
    dump_lines(data, anns, ((data.len() + 15) / 16) as nat)
}

/// Whether the end of every annotation can be computed in 64 bits.
pub open spec fn annotation_ends_fit(anns: Seq<Annotation>) -> bool {
    forall|i: int| 0 <= i < anns.len() ==> #[trigger] anns[i].bit_start + anns[i].bit_length + 7 <= u64::MAX
}

fn push_hex_cells(out: &mut String, data: &[u8], start: usize)
    requires
        start + 16 <= usize::MAX,
    ensures
        final(out)@ == old(out)@ + hex_cells(data@, start as int, 16),
{
    let mut i: usize = 0;
    while i < 16
        invariant
            start + 16 <= usize::MAX,
            i <= 16,
            out@ == old(out)@ + hex_cells(data@, start as int, i as nat),
        decreases 16 - i,
    {
        let ghost before = out@;
        if start + i < data.len() {
            push_hex_padded(out, data[start + i] as u64, 2);
            out.append(" ");
        } else {
            out.append("   ");
        }
        if i == 7 {
            out.push(' ');
            assert(" "@ =~= seq![' ']) by { reveal_strlit(" "); }
        }
        i = i + 1;
        assert(out@ =~= old(out)@ + hex_cells(data@, start as int, i as nat));
    }
}

fn push_ascii_cells(out: &mut String, data: &[u8], start: usize)
    requires
        start + 16 <= usize::MAX,
    ensures
        final(out)@ == old(out)@ + ascii_cells(data@, start as int, 16),
{
    let mut i: usize = 0;
    while i < 16
        invariant
            start + 16 <= usize::MAX,
            i <= 16,
            out@ == old(out)@ + ascii_cells(data@, start as int, i as nat),
        decreases 16 - i,
    {
        if start + i < data.len() {
            let b = data[start + i];
            if (0x21 <= b && b <= 0x7E) || b == 0x20 {
                out.push(b as char);
            } else {
                out.push('.');
            }
        }
        i = i + 1;
        assert(out@ =~= old(out)@ + ascii_cells(data@, start as int, i as nat));
    }
}

fn push_annotation_line(out: &mut String, a: &Annotation)
    ensures
        final(out)@ == old(out)@ + annotation_line(*a),
{
    out.append("          ; ");
    out.append(a.field_name.as_str());
    out.append(" = ");
    push_value_debug(out, &a.value);
    out.append(" (");
    push_decimal(out, a.bit_length as u64);
    out.append(" bits)\n");
    assert(out@ =~= old(out)@ + annotation_line(*a));
}

fn push_lines_at(out: &mut String, anns: &[Annotation], p: usize)
    requires
        annotation_ends_fit(anns@),
    ensures
        final(out)@ == old(out)@ + lines_at(anns@, p as int, anns@.len()),
{
    let n = anns.len();
    let mut j: usize = 0;
    while j < n
        invariant
            n == anns@.len(),
            annotation_ends_fit(anns@),
            j <= n,
            out@ == old(out)@ + lines_at(anns@, p as int, j as nat),
        decreases n - j,
    {
        let a = &anns[j];
        assert(a.bit_start + a.bit_length + 7 <= u64::MAX);
        let first = (a.bit_start / 8) as usize;
        let end = ((a.bit_start + a.bit_length as u64 + 7) / 8) as usize;
        if first < end && first == p {
            push_annotation_line(out, a);
        }
        j = j + 1;
        assert(out@ =~= old(out)@ + lines_at(anns@, p as int, j as nat));
    }
}

fn push_line_annotations(out: &mut String, anns: &[Annotation], start: usize)
    requires
        annotation_ends_fit(anns@),
        start + 16 <= usize::MAX,
    ensures
        final(out)@ == old(out)@ + line_annotations(anns@, start as int, 16),
{
    let mut i: usize = 0;
    while i < 16
        invariant
            annotation_ends_fit(anns@),
            start + 16 <= usize::MAX,
            i <= 16,
            out@ == old(out)@ + line_annotations(anns@, start as int, i as nat),
        decreases 16 - i,
    {
        push_lines_at(out, anns, start + i);
        i = i + 1;
        assert(out@ =~= old(out)@ + line_annotations(anns@, start as int, i as nat));
    }
}

/// Format a hex dump with annotations.
pub fn format_hex_annotated(data: &[u8], annotations: &[Annotation]) -> (r: String)
    requires
        data@.len() + 16 <= usize::MAX,
        annotation_ends_fit(annotations@),
    ensures
        r@ == hex_dump(data@, annotations@),
{
    let mut output = String::new();
    let mut byte_idx: usize = 0;
    let len = data.len();
    let ghost mut k: nat = 0;
    while byte_idx < len
        invariant
            len == data@.len(),
            len + 16 <= usize::MAX,
            annotation_ends_fit(annotations@),
            byte_idx == 16 * k,
            byte_idx <= len + 15,
            k <= (len + 15) / 16,
            output@ == dump_lines(data@, annotations@, k),
        decreases len + 16 - byte_idx,
    {
        let ghost before = output@;
        // Offset
        push_hex_padded(&mut output, byte_idx as u64, 8);
        output.append("  ");
        // Hex bytes (16 per line)
        push_hex_cells(&mut output, data, byte_idx);
        output.append(" |");
        // ASCII
        push_ascii_cells(&mut output, data, byte_idx);
        output.append("|\n");
        // Annotations for this line
        push_line_annotations(&mut output, annotations, byte_idx);
        assert(output@ =~= before + dump_line(data@, annotations@, byte_idx as int));
        byte_idx = byte_idx + 16;
        proof {
            k = k + 1;
        }
    }
    output
}

/// The bytes a dump of `len` bytes shows when it starts at `offset` and
/// shows at most `count` bytes (all of the rest when `count` is `None`): the
/// range from `offset` to its end, both kept within the data.
pub fn dump_window(len: usize, offset: usize, count: Option<usize>) -> (r: (usize, usize))
    ensures
        r.0 == (if offset < len { offset } else { len }),
        r.1 == match count {
            None => len as int,
            Some(n) => if r.0 + n < len { r.0 + n } else { len as int },
        },
        r.0 <= r.1 <= len,
{
    let start = if offset < len { offset } else { len };
    let end = match count {
        None => len,
        Some(n) => if n < len - start { start + n } else { len },
    };
    (start, end)
}


/// The ASCII column of the line at `start` has one character for each of
/// the line's bytes that the data holds: a byte from `0x20` to `0x7E` is
/// shown as the character with that code, any other byte as `.`.
pub proof fn lemma_ascii_column(data: Seq<u8>, start: int, n: nat)
    requires
        0 <= start,
    ensures
        ascii_cells(data, start, n).len() == (if start + n <= data.len() {
            n as int
        } else if start <= data.len() {
            data.len() - start
        } else {
            0
        }),
        forall|j: int| 0 <= j < ascii_cells(data, start, n).len() ==> {
            let b = #[trigger] data[start + j];
            &&& (0x20 <= b <= 0x7E ==> ascii_cells(data, start, n)[j] as u32 == b as u32)
            &&& (b < 0x20 || b > 0x7E ==> ascii_cells(data, start, n)[j] == '.')
        },
    decreases n,
{
    if n > 0 {
        lemma_ascii_column(data, start, (n - 1) as nat);
        let prev = ascii_cells(data, start, (n - 1) as nat);
        let cur = ascii_cells(data, start, n);
        if start + n - 1 < data.len() {
            let b = data[start + n - 1];
            assert(cur == prev + seq![shown_char(b)]);
            assert(cur[prev.len() as int] == shown_char(b));
            assert forall|j: int| 0 <= j < prev.len() implies cur[j] == prev[j] by {}
            if 0x20 <= b <= 0x7E {
                assert((b as char) as u32 == b as u32);
            }
        } else {
            assert(cur =~= prev);
        }
    }
}


/// The value of a lowercase hexadecimal digit.
pub open spec fn hex_value(c: char) -> int {
    if '0' <= c && c <= '9' { c as int - 48 } else { c as int - 87 }
}

/// A lowercase hexadecimal digit.
pub open spec fn is_hex_digit(c: char) -> bool {
    ('0' <= c && c <= '9') || ('a' <= c && c <= 'f')
}

proof fn lemma_hex_digit(d: nat)
    requires
        d < 16,
    ensures
        is_hex_digit(crate::text::hex_digit_char(d)),
        hex_value(crate::text::hex_digit_char(d)) == d,
{
    let b: u8 = if d < 10 { (48 + d) as u8 } else { (87 + d) as u8 };
    assert((b as char) as nat == b as nat);
}

/// The hex column shows each byte of the data as two lowercase hexadecimal
/// digits, high digit first, and a space.
pub proof fn lemma_hex_cell(data: Seq<u8>, p: int)
    requires
        0 <= p < data.len(),
    ensures
        hex_cell(data, p).len() == 3,
        is_hex_digit(hex_cell(data, p)[0]),
        is_hex_digit(hex_cell(data, p)[1]),
        hex_cell(data, p)[2] == ' ',
        16 * hex_value(hex_cell(data, p)[0]) + hex_value(hex_cell(data, p)[1]) == data[p],
{
    reveal_strlit(" ");
    let b = data[p] as nat;
    lemma_hex_digit(b % 16);
    if b < 16 {
        assert(hex_lower(b) == seq![crate::text::hex_digit_char(b)]);
        assert(b % 16 == b);
        assert(zero_pad(hex_lower(b), 2) =~= seq!['0', crate::text::hex_digit_char(b)]);
    } else {
        lemma_hex_digit(b / 16);
        assert(hex_lower(b / 16) == seq![crate::text::hex_digit_char(b / 16)]);
        assert(hex_lower(b) =~= seq![crate::text::hex_digit_char(b / 16), crate::text::hex_digit_char(b % 16)]);
        assert(zero_pad(hex_lower(b), 2) == hex_lower(b));
    }
}


/// An annotation is listed under the byte holding its first bit, and only
/// there, unless it covers no byte at all (it reads no bit and starts on a
/// byte boundary).
pub proof fn lemma_listed_under_first_byte(a: Annotation, p: int)
    requires
        (a.bit_start + a.bit_length + 7) / 8 <= usize::MAX,
    ensures
        starts_at(a, p) <==> (p == a.bit_start / 8 && (a.bit_start % 8 != 0 || a.bit_length > 0)),
{
    let s = a.bit_start as int;
    let l = a.bit_length as int;
    assert(first_byte(a) == s / 8);
    assert(end_byte(a) == (s + l + 7) / 8);
    assert((s + l + 7) / 8 > s / 8 <==> (s % 8 != 0 || l > 0)) by (nonlinear_arith)
        requires s >= 0, l >= 0;
}

/// The line of an annotation names its field, shows its value and the
/// number of bits it read.
pub proof fn lemma_annotation_line_parts(a: Annotation)
    ensures
        annotation_line(a).take(12) == "          ; "@,
        annotation_line(a).subrange(12, 12 + a.field_name@.len() as int) == a.field_name@,
        annotation_line(a).skip(annotation_line(a).len() - (decimal(a.bit_length as nat).len() + 7)) == decimal(
            a.bit_length as nat,
        ) + " bits)\n"@,
{
    reveal_strlit("          ; ");
    reveal_strlit(" bits)\n");
    let line = annotation_line(a);
    assert(line.take(12) =~= "          ; "@);
    assert(line.subrange(12, 12 + a.field_name@.len() as int) =~= a.field_name@);
    assert(line.skip(line.len() - (decimal(a.bit_length as nat).len() + 7)) =~= decimal(a.bit_length as nat) + " bits)\n"@);
}

} // verus!
