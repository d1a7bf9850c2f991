//! Assembler scenarios: directives, exact instruction encodings, page
//! resolution, the indirect marker, case-insensitivity, and ignored
//! lines.

use pdp12_emulator::assemble;

/// `.address` moves the placement pointer; `.data` places octal words.
#[test]
fn directives_place_data() {
    let code = assemble(".address 100\n.data 1234\n.data 7777");
    assert_eq!(code[0o100], 0o1234);
    assert_eq!(code[0o101], 0o7777);
    assert_eq!(code[0o102], 0);
}

/// Every word not placed stays zero, and the image spans the whole
/// address space.
#[test]
fn image_is_full_length() {
    let code = assemble(".address 0\n.data 1");
    assert_eq!(code.len(), 4096);
    assert_eq!(code[0], 1);
    assert_eq!(code[4095], 0);
}

/// A page-zero operand encodes as the bare offset.
#[test]
fn encodes_page_zero_operand() {
    let code = assemble(".address 200\nTAD 10");
    assert_eq!(code[0o200], 0o1010);
}

/// An operand on the instruction's own page sets the page bit and keeps
/// the in-page offset.
#[test]
fn encodes_current_page_operand() {
    let code = assemble(".address 200\nJMS 350");
    assert_eq!(code[0o200], 0o4000 | 0o200 | 0o150);
}

/// The indirect marker sets the indirect flag.
#[test]
fn encodes_indirect_flag() {
    let code = assemble(".address 350\nJMP I 350");
    assert_eq!(code[0o350], 0o5000 | 0o400 | 0o200 | 0o150);
}

/// Halt encodes as the group 2 halt word.
#[test]
fn encodes_hlt() {
    let code = assemble(".address 0\nHLT");
    assert_eq!(code[0], 0o7402);
}

/// Mnemonics and directives are case-insensitive.
#[test]
fn mnemonics_ignore_case() {
    let upper = assemble(".ADDRESS 200\nTAD 10\nDCA 11\nHLT");
    let lower = assemble(".address 200\ntad 10\ndca 11\nhlt");
    assert_eq!(upper, lower);
    assert_eq!(upper[0o200], 0o1010);
    assert_eq!(upper[0o201], 0o3011);
    assert_eq!(upper[0o202], 0o7402);
}

/// All six memory-reference mnemonics encode their family bits.
#[test]
fn all_mnemonics_encode() {
    let code = assemble(".address 200\nAND 10\nTAD 10\nISZ 10\nDCA 10\nJMS 10\nJMP 10");
    assert_eq!(code[0o200], 0o0010);
    assert_eq!(code[0o201], 0o1010);
    assert_eq!(code[0o202], 0o2010);
    assert_eq!(code[0o203], 0o3010);
    assert_eq!(code[0o204], 0o4010);
    assert_eq!(code[0o205], 0o5010);
}

/// A line naming no directive or mnemonic is ignored whole.
#[test]
fn unknown_lines_are_ignored() {
    let with = assemble(".address 200\n/ a remark\nTAD 10");
    let without = assemble(".address 200\nTAD 10");
    assert_eq!(with, without);
}

/// Lines may end in either line-ending convention.
#[test]
fn carriage_returns_are_stripped() {
    let code = assemble(".address 200\r\nTAD 10\r\n");
    assert_eq!(code[0o200], 0o1010);
}
