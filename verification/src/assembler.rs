//! The textual assembler: a pure, stateless function from mnemonic text
//! to a 4096-word program image, which the machine core consumes as an
//! opaque snapshot.
//!
//! A program is a sequence of lines.  `.address N` moves the placement
//! pointer to octal `N`; `.data N` places the octal word `N`; `HLT`
//! places the halt instruction; a memory-reference mnemonic (`AND`,
//! `TAD`, `DCA`, `JMP`, `ISZ`, `JMS`), optionally with the indirect
//! marker `I`, places the encoded instruction, resolving the operand
//! against page zero or the line's own page.  Any other line is ignored.

use vstd::prelude::*;

use crate::consts::{MASK_12BIT, MASK_CURRENT_PAGE};
use crate::memory::lemma_mask12;

verus! {

/// The index of the first occurrence of `c` in `s`, or the length of `s`.
pub open spec fn first_index(s: Seq<u8>, c: u8) -> int
    decreases s.len(),
{
    if s.len() == 0 {
        0
    } else if s[0] == c {
        0
    } else {
        1 + first_index(s.skip(1), c)
    }
}

proof fn lemma_first_index(s: Seq<u8>, c: u8)
    ensures
        0 <= first_index(s, c) <= s.len(),
        first_index(s, c) < s.len() ==> s[first_index(s, c)] == c,
        forall|k: int| 0 <= k < first_index(s, c) ==> s[k] != c,
    decreases s.len(),
{
    if s.len() > 0 && s[0] != c {
        lemma_first_index(s.skip(1), c);
        assert forall|k: int| 0 <= k < first_index(s, c) implies s[k] != c by {
            if k > 0 {
                assert(s[k] == s.skip(1)[k - 1]);
            }
        }
    }
}

proof fn lemma_first_index_from(s: Seq<u8>, c: u8, m: int)
    requires
        0 <= m <= s.len(),
        forall|k: int| 0 <= k < m ==> s[k] != c,
        m == s.len() || s[m] == c,
    ensures
        first_index(s, c) == m,
    decreases s.len(),
{
    if s.len() > 0 && s[0] != c {
        lemma_first_index_from(s.skip(1), c, m - 1);
    }
}

/// The space-separated tokens of one line; consecutive separators yield
/// empty tokens.
pub open spec fn tokens(l: Seq<u8>) -> Seq<Seq<u8>>
    decreases l.len(),
    via tokens_decreases
{
    let sp = first_index(l, 0x20);
    if sp == l.len() {
        seq![l]
    } else {
        seq![l.take(sp)] + tokens(l.skip(sp + 1))
    }
}

#[via_fn]
proof fn tokens_decreases(l: Seq<u8>) {
    lemma_first_index(l, 0x20);
}

proof fn lemma_tokens(l: Seq<u8>)
    ensures
        tokens(l).len() >= 1,
        tokens(l)[0] == l.take(first_index(l, 0x20)),
        first_index(l, 0x20) == l.len() ==> tokens(l) == seq![l] && tokens(l).len() == 1,
        first_index(l, 0x20) < l.len() ==> tokens(l).skip(1) == tokens(
            l.skip(first_index(l, 0x20) + 1),
        ) && tokens(l).len() >= 2,
{
    lemma_first_index(l, 0x20);
    let sp = first_index(l, 0x20);
    if sp == l.len() {
        assert(tokens(l)[0] =~= l.take(sp));
    } else {
        assert(tokens(l).skip(1) =~= tokens(l.skip(sp + 1)));
        lemma_tokens_len(l.skip(sp + 1));
    }
}

proof fn lemma_tokens_len(l: Seq<u8>)
    ensures
        tokens(l).len() >= 1,
    decreases l.len(),
{
    let sp = first_index(l, 0x20);
    lemma_first_index(l, 0x20);
    if sp < l.len() {
        lemma_tokens_len(l.skip(sp + 1));
    }
}

/// One line with a trailing carriage return dropped, as a line ending of
/// either convention.
pub open spec fn strip_cr(l: Seq<u8>) -> Seq<u8> {
    if l.len() > 0 && l.last() == 0x0d {
        l.drop_last()
    } else {
        l
    }
}

/// The lines of a program text: split at every newline, each line without
/// its line ending, with the final line ending optional.
pub open spec fn split_lines(s: Seq<u8>) -> Seq<Seq<u8>>
    decreases s.len(),
    via split_lines_decreases
{
    if s.len() == 0 {
        Seq::empty()
    } else {
        let nl = first_index(s, 0x0a);
        if nl == s.len() {
            seq![strip_cr(s)]
        } else {
            seq![strip_cr(s.take(nl))] + split_lines(s.skip(nl + 1))
        }
    }
}

#[via_fn]
proof fn split_lines_decreases(s: Seq<u8>) {
    lemma_first_index(s, 0x0a);
}

pub open spec fn is_digit(b: u8) -> bool {
    0x30 <= b <= 0x39
}

pub open spec fn is_octal_digit(b: u8) -> bool {
    0x30 <= b <= 0x37
}

/// A non-empty token of octal digits.
pub open spec fn is_octal_tok(t: Seq<u8>) -> bool {
    t.len() > 0 && forall|i: int| 0 <= i < t.len() ==> is_octal_digit(#[trigger] t[i])
}

/// A token of decimal digits (vacuously true of the empty token); such a
/// first token takes a superseded input form this assembler rejects.
pub open spec fn all_digits(t: Seq<u8>) -> bool {
    forall|i: int| 0 <= i < t.len() ==> is_digit(#[trigger] t[i])
}

/// The numeric value of an octal token.
pub open spec fn octal_val(t: Seq<u8>) -> int
    decreases t.len(),
{
    if t.len() == 0 {
        0
    } else {
        octal_val(t.drop_last()) * 8 + (t.last() - 0x30)
    }
}

proof fn lemma_octal_prefix(t: Seq<u8>, k: int)
    requires
        is_octal_tok(t),
        0 <= k <= t.len(),
    ensures
        octal_val(t.take(k)) <= octal_val(t),
        octal_val(t) >= 0,
    decreases t.len() - k,
{
    if k < t.len() {
        assert(t.take(k + 1).drop_last() =~= t.take(k));
        assert(t.take(k + 1).last() == t[k]);
        lemma_octal_nonneg(t.take(k));
        lemma_octal_prefix(t, k + 1);
    } else {
        assert(t.take(k) =~= t);
        lemma_octal_nonneg(t);
    }
}

proof fn lemma_octal_nonneg(t: Seq<u8>)
    requires
        forall|i: int| 0 <= i < t.len() ==> is_octal_digit(#[trigger] t[i]),
    ensures
        octal_val(t) >= 0,
    decreases t.len(),
{
    if t.len() > 0 {
        assert(forall|i: int|
            0 <= i < t.drop_last().len() ==> is_octal_digit(#[trigger] t.drop_last()[i]));
        lemma_octal_nonneg(t.drop_last());
    }
}

/// ASCII upper-casing of one byte.
pub open spec fn to_upper(b: u8) -> u8 {
    if 0x61 <= b <= 0x7a {
        (b - 0x20) as u8
    } else {
        b
    }
}

/// Case-insensitive equality of two ASCII tokens.
pub open spec fn eq_ci(a: Seq<u8>, b: Seq<u8>) -> bool {
    a.len() == b.len() && forall|i: int| 0 <= i < a.len() ==> to_upper(#[trigger] a[i]) == to_upper(
        b[i],
    )
}

pub open spec fn lit_address() -> Seq<u8> {
    seq![0x2e, 0x61, 0x64, 0x64, 0x72, 0x65, 0x73, 0x73]
}

pub open spec fn lit_data() -> Seq<u8> {
    seq![0x2e, 0x64, 0x61, 0x74, 0x61]
}

pub open spec fn lit_hlt() -> Seq<u8> {
    seq![0x48, 0x4c, 0x54]
}

pub open spec fn lit_i() -> Seq<u8> {
    seq![0x49]
}

pub open spec fn lit_and() -> Seq<u8> {
    seq![0x41, 0x4e, 0x44]
}

pub open spec fn lit_tad() -> Seq<u8> {
    seq![0x54, 0x41, 0x44]
}

pub open spec fn lit_dca() -> Seq<u8> {
    seq![0x44, 0x43, 0x41]
}

pub open spec fn lit_jmp() -> Seq<u8> {
    seq![0x4a, 0x4d, 0x50]
}

pub open spec fn lit_isz() -> Seq<u8> {
    seq![0x49, 0x53, 0x5a]
}

pub open spec fn lit_jms() -> Seq<u8> {
    seq![0x4a, 0x4d, 0x53]
}

/// The opcode-family bits of a memory-reference mnemonic.
pub open spec fn mnemonic_code(t: Seq<u8>) -> Option<u16> {
    if eq_ci(t, lit_and()) {
        Some(0b0000_000_000_000_000u16)
    } else if eq_ci(t, lit_tad()) {
        Some(0b0000_001_000_000_000u16)
    } else if eq_ci(t, lit_dca()) {
        Some(0b0000_011_000_000_000u16)
    } else if eq_ci(t, lit_jmp()) {
        Some(0b0000_101_000_000_000u16)
    } else if eq_ci(t, lit_isz()) {
        Some(0b0000_010_000_000_000u16)
    } else if eq_ci(t, lit_jms()) {
        Some(0b0000_100_000_000_000u16)
    } else {
        None
    }
}

/// An operand address a memory-reference instruction placed at `p` can
/// encode: on page zero, or on the same page as `p`.
pub open spec fn addr_ok(a: u16, p: u16) -> bool {
    a < 4096 && (a < 0o200 || (a & MASK_CURRENT_PAGE) == (p & MASK_CURRENT_PAGE))
}

/// The encoded memory-reference instruction word.
pub open spec fn encode_mr(code: u16, ind: bool, a: u16, p: u16) -> u16 {
    let base = if ind {
        code | 0b0000_000_100_000_000u16
    } else {
        code
    };
    if a < 0o200 {
        base | a
    } else {
        base | 0b0000_000_010_000_000 | (a & !MASK_CURRENT_PAGE)
    }
}

/// A line this assembler gives a meaning: a well-formed directive, halt,
/// or memory-reference line, or any line it ignores whole.  `ptr` is the
/// placement pointer the line is reached with.
pub open spec fn line_wf(line: Seq<u8>, ptr: u16) -> bool {
    let p = ptr & MASK_12BIT;
    let ts = tokens(line);
    let t0 = ts[0];
    if eq_ci(t0, lit_address()) {
        ts.len() >= 2 && is_octal_tok(ts[1]) && octal_val(ts[1]) < 4096
    } else if eq_ci(t0, lit_data()) {
        ts.len() >= 2 && is_octal_tok(ts[1]) && octal_val(ts[1]) <= 0o7777
    } else if eq_ci(t0, lit_hlt()) {
        true
    } else if mnemonic_code(t0) is Some {
        if ts.len() == 3 && eq_ci(ts[1], lit_i()) {
            is_octal_tok(ts[2]) && addr_ok(octal_val(ts[2]) as u16, p) && octal_val(ts[2]) < 4096
        } else {
            ts.len() == 2 && is_octal_tok(ts[1]) && addr_ok(octal_val(ts[1]) as u16, p)
                && octal_val(ts[1]) < 4096
        }
    } else {
        !all_digits(t0)
    }
}

/// What one line does to the placement pointer and the image.
pub open spec fn line_effect(line: Seq<u8>, ptr: u16, mem: Seq<u16>) -> (u16, Seq<u16>) {
    let p = ptr & MASK_12BIT;
    let ts = tokens(line);
    let t0 = ts[0];
    if eq_ci(t0, lit_address()) {
        (octal_val(ts[1]) as u16, mem)
    } else if eq_ci(t0, lit_data()) {
        ((p + 1) as u16, mem.update(p as int, octal_val(ts[1]) as u16))
    } else if eq_ci(t0, lit_hlt()) {
        ((p + 1) as u16, mem.update(p as int, 0b0000_111_100_000_010u16))
    } else if mnemonic_code(t0) is Some {
        let code = mnemonic_code(t0)->0;
        let (ind, a) = if ts.len() == 3 && eq_ci(ts[1], lit_i()) {
            (true, octal_val(ts[2]) as u16)
        } else {
            (false, octal_val(ts[1]) as u16)
        };
        ((p + 1) as u16, mem.update(p as int, encode_mr(code, ind, a, p)))
    } else {
        (p, mem)
    }
}

/// The placement pointer after one line; it does not depend on the image.
pub open spec fn line_ptr(line: Seq<u8>, ptr: u16) -> u16 {
    line_effect(line, ptr, Seq::empty()).0
}

/// Every line is well formed under the pointer it is reached with.
pub open spec fn lines_wf(lines: Seq<Seq<u8>>, ptr: u16) -> bool
    decreases lines.len(),
{
    lines.len() == 0 || (line_wf(lines[0], ptr) && lines_wf(lines.skip(1), line_ptr(lines[0], ptr)))
}

/// The image after assembling `lines` from pointer `ptr` onto `mem`.
pub open spec fn spec_assemble_lines(lines: Seq<Seq<u8>>, ptr: u16, mem: Seq<u16>) -> Seq<u16>
    decreases lines.len(),
{
    if lines.len() == 0 {
        mem
    } else {
        let (p2, m2) = line_effect(lines[0], ptr, mem);
        spec_assemble_lines(lines.skip(1), p2, m2)
    }
}

/// The bytes of an ASCII text.
pub open spec fn ascii_bytes(s: Seq<char>) -> Seq<u8> {
    Seq::new(s.len(), |i: int| s[i] as u8)
}

fn to_upper_ex(b: u8) -> (r: u8)
    ensures
        r == to_upper(b),
{
    if 0x61 <= b && b <= 0x7a {
        b - 0x20
    } else {
        b
    }
}

/// The position of the first `c` in `bytes[lo..hi]`, or `hi`.
fn find_byte(bytes: &[u8], lo: usize, hi: usize, c: u8) -> (e: usize)
    requires
        lo <= hi <= bytes@.len(),
    ensures
        lo <= e <= hi,
        e - lo == first_index(bytes@.subrange(lo as int, hi as int), c),
        e < hi ==> bytes@[e as int] == c,
        forall|k: int| lo <= k < e ==> bytes@[k] != c,
{
    let mut i = lo;
    while i < hi && bytes[i] != c
        invariant
            lo <= i <= hi <= bytes@.len(),
            forall|k: int| lo <= k < i ==> bytes@[k] != c,
        decreases hi - i,
    {
        i = i + 1;
    }
    proof {
        lemma_first_index_from(bytes@.subrange(lo as int, hi as int), c, i - lo);
    }
    i
}

/// Case-insensitive equality of `bytes[lo..hi]` and `lit`.
fn tok_eq_ci(bytes: &[u8], lo: usize, hi: usize, lit: &Vec<u8>) -> (r: bool)
    requires
        lo <= hi <= bytes@.len(),
    ensures
        r == eq_ci(bytes@.subrange(lo as int, hi as int), lit@),
{
    if hi - lo != lit.len() {
        return false;
    }
    let mut i: usize = 0;
    while i < lit.len()
        invariant
            0 <= i <= lit@.len(),
            lo <= hi <= bytes@.len(),
            hi - lo == lit@.len(),
            forall|k: int|
                0 <= k < i ==> to_upper(bytes@.subrange(lo as int, hi as int)[k]) == to_upper(
                    lit@[k],
                ),
        decreases lit@.len() - i,
    {
        proof {
            assert(bytes@.subrange(lo as int, hi as int)[i as int] == bytes@[lo + i]);
        }
        if to_upper_ex(bytes[lo + i]) != to_upper_ex(lit[i]) {
            return false;
        }
        i = i + 1;
    }
    true
}

proof fn lemma_or12(x: u16, y: u16)
    ensures
        x < 4096 && y < 4096 ==> (x | y) < 4096,
        (x & y) <= x,
{
    assert((x < 4096 && y < 4096 ==> (x | y) < 4096) && (x & y) <= x) by (bit_vector);
}

/// The value of the octal token `bytes[lo..hi]`.
fn parse_octal(bytes: &[u8], lo: usize, hi: usize) -> (v: u16)
    requires
        lo <= hi <= bytes@.len(),
        is_octal_tok(bytes@.subrange(lo as int, hi as int)),
        octal_val(bytes@.subrange(lo as int, hi as int)) < 4096,
    ensures
        v == octal_val(bytes@.subrange(lo as int, hi as int)),
        v < 4096,
{
    let ghost t = bytes@.subrange(lo as int, hi as int);
    let mut acc: u16 = 0;
    let mut i = lo;
    proof {
        assert(t.take(0) =~= Seq::<u8>::empty());
    }
    while i < hi
        invariant
            lo <= i <= hi <= bytes@.len(),
            t == bytes@.subrange(lo as int, hi as int),
            is_octal_tok(t),
            octal_val(t) < 4096,
            acc == octal_val(t.take(i - lo)),
            acc < 4096,
        decreases hi - i,
    {
        proof {
            lemma_octal_prefix(t, i - lo + 1);
            assert(t.take(i - lo + 1).drop_last() =~= t.take(i - lo));
            assert(t.take(i - lo + 1).last() == t[i - lo]);
            assert(is_octal_digit(t[i - lo]));
            lemma_octal_nonneg(t.take(i - lo));
        }
        acc = acc * 8 + (bytes[i] - 0x30) as u16;
        i = i + 1;
    }
    proof {
        assert(t.take(hi - lo) =~= t);
    }
    acc
}

} // verus!

verus! {

/// Token boundaries of one line: `e0` ends the first token; when more
/// tokens follow, `e1` ends the second.  Relates the exec scan to the
/// spec-level token list.
proof fn lemma_token0(bytes: Seq<u8>, lo: int, hi: int, e0: int)
    requires
        0 <= lo <= hi <= bytes.len(),
        lo <= e0 <= hi,
        e0 - lo == first_index(bytes.subrange(lo, hi), 0x20),
    ensures
        tokens(bytes.subrange(lo, hi))[0] == bytes.subrange(lo, e0),
        e0 == hi ==> tokens(bytes.subrange(lo, hi)).len() == 1,
        e0 < hi ==> tokens(bytes.subrange(lo, hi)).len() >= 2 && tokens(
            bytes.subrange(lo, hi),
        ).skip(1) == tokens(bytes.subrange(e0 + 1, hi)),
{
    let line = bytes.subrange(lo, hi);
    lemma_tokens(line);
    assert(line.take(e0 - lo) =~= bytes.subrange(lo, e0));
    if e0 < hi {
        assert(line.skip(e0 - lo + 1) =~= bytes.subrange(e0 + 1, hi));
    }
}

/// The assembled program image: the fold of every line of the ASCII text
/// `code`, placement pointer starting at zero, onto an all-zero image.
///
/// The instruction encodings and directives are those of [`line_effect`];
/// a line no rule gives a meaning leaves the image and the pointer
/// unchanged.  Callers hand in text whose lines are all well formed
/// ([`lines_wf`]); every word of the result is a 12-bit value, so the
/// image loads directly into [`crate::memory::Memory::with_code`].
pub fn assemble(code: &str) -> (image: Vec<u16>)
    requires
        vstd::string::is_ascii(code),
        lines_wf(split_lines(ascii_bytes(code@)), 0),
    ensures
        image@.len() == 4096,
        forall|i: int| 0 <= i < 4096 ==> #[trigger] image@[i] < 4096,
        image@ == spec_assemble_lines(
            split_lines(ascii_bytes(code@)),
            0,
            Seq::new(4096, |i: int| 0u16),
        ),
{
    proof {
        vstd::string::is_ascii_spec_bytes(code);
    }
    let bytes = code.as_bytes();
    proof {
        assert(bytes@ =~= ascii_bytes(code@));
    }
    let n = bytes.len();
    let mut image: Vec<u16> = vec![0u16; 4096];
    proof {
        assert(image@ =~= Seq::new(4096, |i: int| 0u16));
    }
    let ghost target = spec_assemble_lines(split_lines(bytes@), 0, image@);
    let mut pointer: u16 = 0;
    let mut i: usize = 0;
    proof {
        assert(bytes@.skip(0) =~= bytes@);
    }
    while i < n
        invariant
            i <= n == bytes@.len(),
            bytes@ == ascii_bytes(code@),
            image@.len() == 4096,
            forall|k: int| 0 <= k < 4096 ==> #[trigger] image@[k] < 4096,
            pointer <= 4096,
            lines_wf(split_lines(bytes@.skip(i as int)), pointer),
            spec_assemble_lines(split_lines(bytes@.skip(i as int)), pointer, image@) == target,
            target == spec_assemble_lines(
                split_lines(ascii_bytes(code@)),
                0,
                Seq::new(4096, |j: int| 0u16),
            ),
        decreases n - i,
    {
        let ghost suffix = bytes@.skip(i as int);
        let ghost lines = split_lines(suffix);
        let ghost p0 = pointer;
        let j = find_byte(bytes, i, n, 0x0a);
        let jj = if j > i && bytes[j - 1] == 0x0d {
            j - 1
        } else {
            j
        };
        proof {
            assert(suffix =~= bytes@.subrange(i as int, n as int));
            assert(suffix.len() > 0);
            let raw = suffix.take(j - i);
            assert(raw =~= bytes@.subrange(i as int, j as int));
            assert(strip_cr(raw) =~= bytes@.subrange(i as int, jj as int));
            if j < n {
                assert(lines == seq![strip_cr(raw)] + split_lines(suffix.skip(j - i + 1)));
                assert(lines[0] == bytes@.subrange(i as int, jj as int));
                assert(suffix.skip(j - i + 1) =~= bytes@.skip(j + 1));
                assert(lines.skip(1) =~= split_lines(bytes@.skip(j + 1)));
            } else {
                assert(raw =~= suffix);
                assert(lines == seq![strip_cr(suffix)]);
                assert(lines[0] == bytes@.subrange(i as int, jj as int));
                assert(lines.skip(1) =~= Seq::<Seq<u8>>::empty());
            }
            assert(line_wf(lines[0], pointer));
        }
        let ghost img0 = image@;
        let p2 = process_line(bytes, i, jj, pointer, &mut image);
        pointer = p2;
        proof {
            assert(line_ptr(lines[0], p0) == p2);
            assert(spec_assemble_lines(lines, p0, img0) == spec_assemble_lines(
                lines.skip(1),
                p2,
                image@,
            ));
            assert(lines_wf(lines.skip(1), p2));
            assert(split_lines(Seq::<u8>::empty()) =~= Seq::<Seq<u8>>::empty());
            if j >= n {
                assert(bytes@.skip(n as int) =~= Seq::<u8>::empty());
            }
        }
        if j < n {
            i = j + 1;
        } else {
            i = n;
        }
    }
    proof {
        assert(bytes@.skip(i as int) =~= Seq::<u8>::empty());
        assert(split_lines(Seq::<u8>::empty()) =~= Seq::<Seq<u8>>::empty());
    }
    image
}

/// Applies one well-formed (or ignored) line to the image and returns the
/// placement pointer it leaves.
fn process_line(bytes: &[u8], lo: usize, hi: usize, pointer: u16, image: &mut Vec<u16>) -> (p2: u16)
    requires
        lo <= hi <= bytes@.len(),
        line_wf(bytes@.subrange(lo as int, hi as int), pointer),
        old(image)@.len() == 4096,
        forall|i: int| 0 <= i < 4096 ==> #[trigger] old(image)@[i] < 4096,
    ensures
        final(image)@.len() == 4096,
        forall|i: int| 0 <= i < 4096 ==> #[trigger] final(image)@[i] < 4096,
        p2 <= 4096,
        (p2, final(image)@) == line_effect(
            bytes@.subrange(lo as int, hi as int),
            pointer,
            old(image)@,
        ),
{
    let ghost line = bytes@.subrange(lo as int, hi as int);
    let ghost ts = tokens(line);
    proof {
        lemma_mask12(pointer);
    }
    let p = pointer & MASK_12BIT;
    let e0 = find_byte(bytes, lo, hi, 0x20);
    proof {
        lemma_token0(bytes@, lo as int, hi as int, e0 as int);
    }

    let lit_addr_v: Vec<u8> = vec![0x2e, 0x61, 0x64, 0x64, 0x72, 0x65, 0x73, 0x73];
    let lit_data_v: Vec<u8> = vec![0x2e, 0x64, 0x61, 0x74, 0x61];
    let lit_hlt_v: Vec<u8> = vec![0x48, 0x4c, 0x54];
    let lit_i_v: Vec<u8> = vec![0x49];
    let lit_and_v: Vec<u8> = vec![0x41, 0x4e, 0x44];
    let lit_tad_v: Vec<u8> = vec![0x54, 0x41, 0x44];
    let lit_dca_v: Vec<u8> = vec![0x44, 0x43, 0x41];
    let lit_jmp_v: Vec<u8> = vec![0x4a, 0x4d, 0x50];
    let lit_isz_v: Vec<u8> = vec![0x49, 0x53, 0x5a];
    let lit_jms_v: Vec<u8> = vec![0x4a, 0x4d, 0x53];
    proof {
        assert(lit_addr_v@ =~= lit_address());
        assert(lit_data_v@ =~= lit_data());
        assert(lit_hlt_v@ =~= lit_hlt());
        assert(lit_i_v@ =~= lit_i());
        assert(lit_and_v@ =~= lit_and());
        assert(lit_tad_v@ =~= lit_tad());
        assert(lit_dca_v@ =~= lit_dca());
        assert(lit_jmp_v@ =~= lit_jmp());
        assert(lit_isz_v@ =~= lit_isz());
        assert(lit_jms_v@ =~= lit_jms());
    }

    if tok_eq_ci(bytes, lo, e0, &lit_addr_v) {
        // .address: move the placement pointer
        assert(e0 < hi);
        let e1 = find_byte(bytes, e0 + 1, hi, 0x20);
        proof {
            lemma_token0(bytes@, e0 as int + 1, hi as int, e1 as int);
            assert(ts[1] == bytes@.subrange(e0 as int + 1, e1 as int));
        }
        let v = parse_octal(bytes, e0 + 1, e1);
        return v;
    }
    if tok_eq_ci(bytes, lo, e0, &lit_data_v) {
        // .data: place one word
        assert(e0 < hi);
        let e1 = find_byte(bytes, e0 + 1, hi, 0x20);
        proof {
            lemma_token0(bytes@, e0 as int + 1, hi as int, e1 as int);
            assert(ts[1] == bytes@.subrange(e0 as int + 1, e1 as int));
        }
        let v = parse_octal(bytes, e0 + 1, e1);
        image[p as usize] = v;
        return p + 1;
    }
    if tok_eq_ci(bytes, lo, e0, &lit_hlt_v) {
        // HLT: place the halt instruction
        image[p as usize] = 0b0000_111_100_000_010;
        return p + 1;
    }

    let code: u16;
    if tok_eq_ci(bytes, lo, e0, &lit_and_v) {
        code = 0b0000_000_000_000_000;
    } else if tok_eq_ci(bytes, lo, e0, &lit_tad_v) {
        code = 0b0000_001_000_000_000;
    } else if tok_eq_ci(bytes, lo, e0, &lit_dca_v) {
        code = 0b0000_011_000_000_000;
    } else if tok_eq_ci(bytes, lo, e0, &lit_jmp_v) {
        code = 0b0000_101_000_000_000;
    } else if tok_eq_ci(bytes, lo, e0, &lit_isz_v) {
        code = 0b0000_010_000_000_000;
    } else if tok_eq_ci(bytes, lo, e0, &lit_jms_v) {
        code = 0b0000_100_000_000_000;
    } else {
        // A line no rule gives a meaning: ignored whole.
        return p;
    }
    assert(mnemonic_code(ts[0]) == Some(code));
    assert(e0 < hi);
    let e1 = find_byte(bytes, e0 + 1, hi, 0x20);
    proof {
        lemma_token0(bytes@, e0 as int + 1, hi as int, e1 as int);
        assert(ts[1] == bytes@.subrange(e0 as int + 1, e1 as int));
    }
    let indirect: bool;
    let alo: usize;
    let ahi: usize;
    if e1 < hi {
        // Three tokens: the middle one must be the indirect marker.
        let e2 = find_byte(bytes, e1 + 1, hi, 0x20);
        proof {
            lemma_token0(bytes@, e1 as int + 1, hi as int, e2 as int);
            assert(ts.skip(1)[1] == ts[2]);
            assert(tokens(bytes@.subrange(e0 as int + 1, hi as int)).skip(1)[0] == ts[2]);
            assert(ts[2] == bytes@.subrange(e1 as int + 1, e2 as int));
            assert(ts.len() == 2 + tokens(bytes@.subrange(e1 as int + 1, hi as int)).len());
            lemma_tokens_len(bytes@.subrange(e1 as int + 1, hi as int));
        }
        let is_i = tok_eq_ci(bytes, e0 + 1, e1, &lit_i_v);
        proof {
            if e2 < hi {
                lemma_token0(bytes@, e1 as int + 1, hi as int, e2 as int);
                lemma_tokens_len(bytes@.subrange(e2 as int + 1, hi as int));
                assert(ts.len() >= 4);
                assert(false);
            }
            if !is_i {
                assert(false);
            }
        }
        indirect = true;
        alo = e1 + 1;
        ahi = e2;
    } else {
        indirect = false;
        alo = e0 + 1;
        ahi = e1;
    }
    let a = parse_octal(bytes, alo, ahi);
    let base = if indirect {
        proof {
            lemma_or12(code, 0b0000_000_100_000_000);
        }
        code | 0b0000_000_100_000_000
    } else {
        code
    };
    let instr = if a < 0o200 {
        proof {
            lemma_or12(base, a);
        }
        base | a
    } else {
        proof {
            lemma_or12(a, !MASK_CURRENT_PAGE);
            lemma_or12(base, 0b0000_000_010_000_000);
            lemma_or12(base | 0b0000_000_010_000_000, a & !MASK_CURRENT_PAGE);
        }
        base | 0b0000_000_010_000_000 | (a & !MASK_CURRENT_PAGE)
    };
    assert(instr == encode_mr(code, indirect, a, p));
    image[p as usize] = instr;
    p + 1
}

} // verus!
