use vstd::prelude::*;

use crate::instruction::Instruction;
use crate::parse::depth;

verus! {

/// The character of a decimal digit.
pub open spec fn digit_char(d: nat) -> char {
    if d == 0 {
        '0'
    } else if d == 1 {
        '1'
    } else if d == 2 {
        '2'
    } else if d == 3 {
        '3'
    } else if d == 4 {
        '4'
    } else if d == 5 {
        '5'
    } else if d == 6 {
        '6'
    } else if d == 7 {
        '7'
    } else if d == 8 {
        '8'
    } else {
        '9'
    }
}

/// The decimal digits of a number, without leading zeros.
pub open spec fn digits(n: nat) -> Seq<char>
    decreases n,
{
    if n < 10 {
        seq![digit_char(n)]
    } else {
        digits(n / 10).push(digit_char(n % 10))
    }
}

/// A signed number in decimal, with a leading `-` when negative.
pub open spec fn signed_text(n: int) -> Seq<char> {
    if n < 0 {
        seq!['-'] + digits((-n) as nat)
    } else {
        digits(n as nat)
    }
}

/// The debug text of an instruction, such as `Add(1)` or `Print`.
pub open spec fn instruction_text(ins: Instruction) -> Seq<char> {
    match ins {
        Instruction::Move(n) => seq!['M', 'o', 'v', 'e', '('] + signed_text(n as int) + seq![')'],
        Instruction::Add(n) => seq!['A', 'd', 'd', '('] + signed_text(n as int) + seq![')'],
        Instruction::Print => seq!['P', 'r', 'i', 'n', 't'],
        Instruction::Read => seq!['R', 'e', 'a', 'd'],
        Instruction::JumpIfZero(t) => seq!['J', 'u', 'm', 'p', 'I', 'f', 'Z', 'e', 'r', 'o', '(']
            + digits(t as nat) + seq![')'],
        Instruction::JumpIfNotZero(t) => seq![
            'J',
            'u',
            'm',
            'p',
            'I',
            'f',
            'N',
            'o',
            't',
            'Z',
            'e',
            'r',
            'o',
            '(',
        ] + digits(t as nat) + seq![')'],
        Instruction::SetZero => seq!['S', 'e', 't', 'Z', 'e', 'r', 'o'],
    }
}

/// The mark in front of a loop open or close, a space elsewhere.
pub open spec fn decoration(ins: Instruction) -> char {
    match ins {
        Instruction::JumpIfZero(_) => '\u{2b10}',
        Instruction::JumpIfNotZero(_) => '\u{2b11}',
        _ => ' ',
    }
}

/// The nesting level at which line `i` is indented: a loop open counts
/// itself, a loop close still counts its own loop.
pub open spec fn level(p: Seq<Instruction>, i: int) -> int {
    depth(p, i as nat) + if p[i] is JumpIfZero {
        1int
    } else {
        0int
    }
}

/// `n` spaces.
pub open spec fn spaces(n: nat) -> Seq<char> {
    Seq::new(n, |i: int| ' ')
}

/// `s` with spaces in front up to `width` characters.
pub open spec fn pad_left(s: Seq<char>, width: nat) -> Seq<char> {
    if s.len() < width {
        spaces((width - s.len()) as nat) + s
    } else {
        s
    }
}

/// An annotation line from its parts.
pub open spec fn line_text(
    ins: Instruction,
    number: nat,
    width: nat,
    level: nat,
    count: Option<u64>,
) -> Seq<char> {
    pad_left(digits(number), width) + seq![' ', ' '] + spaces(3 * level) + seq![decoration(ins)]
        + instruction_text(ins) + match count {
        Some(c) => seq![' '] + digits(c as nat),
        None => Seq::empty(),
    } + seq!['\n']
}

/// The annotation line of instruction `i`.
pub open spec fn line(p: Seq<Instruction>, profile: Option<Seq<u64>>, i: int) -> Seq<char> {
    line_text(
        p[i],
        (i + 1) as nat,
        digits(p.len()).len(),
        level(p, i) as nat,
        match profile {
            Some(c) => Some(c[i]),
            None => None,
        },
    )
}

/// The annotation lines of the first `n` instructions.
pub open spec fn lines(p: Seq<Instruction>, profile: Option<Seq<u64>>, n: nat) -> Seq<char>
    decreases n,
{
    if n == 0 {
        Seq::empty()
    } else {
        lines(p, profile, (n - 1) as nat) + line(p, profile, n - 1)
    }
}

/// No prefix closes more loops than it opens.
pub open spec fn nesting_ok(p: Seq<Instruction>) -> bool {
    forall|m: nat| m <= p.len() ==> #[trigger] depth(p, m) >= 0
}

fn digit(d: u64) -> (c: char)
    requires
        d < 10,
    ensures
        c == digit_char(d as nat),
{
    match d {
        0 => '0',
        1 => '1',
        2 => '2',
        3 => '3',
        4 => '4',
        5 => '5',
        6 => '6',
        7 => '7',
        8 => '8',
        _ => '9',
    }
}

fn push_decimal(out: &mut Vec<char>, n: u64)
    ensures
        final(out)@ == old(out)@ + digits(n as nat),
    decreases n,
{
    if n >= 10 {
        push_decimal(out, n / 10);
    }
    out.push(digit(n % 10));
    assert(final(out)@ =~= old(out)@ + digits(n as nat));
}

fn push_str(out: &mut Vec<char>, s: &[char])
    ensures
        final(out)@ == old(out)@ + s@,
{
    let mut i: usize = 0;
    let ghost start = out@;
    while i < s.len()
        invariant
            i <= s@.len(),
            out@ == start + s@.subrange(0, i as int),
        decreases s@.len() - i,
    {
        out.push(s[i]);
        i += 1;
        assert(out@ =~= start + s@.subrange(0, i as int));
    }
    assert(s@.subrange(0, i as int) =~= s@);
}

fn push_spaces(out: &mut Vec<char>, n: usize)
    ensures
        final(out)@ == old(out)@ + spaces(n as nat),
{
    let mut i: usize = 0;
    let ghost start = out@;
    while i < n
        invariant
            i <= n,
            out@ == start + spaces(i as nat),
        decreases n - i,
    {
        out.push(' ');
        i += 1;
        assert(out@ =~= start + spaces(i as nat));
    }
}

fn push_signed(out: &mut Vec<char>, n: isize)
    ensures
        final(out)@ == old(out)@ + signed_text(n as int),
{
    if n < 0 {
        out.push('-');
        let magnitude: u64 = (-(n + 1)) as u64 + 1;
        push_decimal(out, magnitude);
        assert(final(out)@ =~= old(out)@ + signed_text(n as int));
    } else {
        push_decimal(out, n as u64);
    }
}

fn push_instruction(out: &mut Vec<char>, ins: Instruction)
    ensures
        final(out)@ == old(out)@ + instruction_text(ins),
{
    let ghost start = out@;
    match ins {
        Instruction::Move(n) => {
            push_str(out, &['M', 'o', 'v', 'e', '(']);
            push_signed(out, n);
            out.push(')');
        },
        Instruction::Add(n) => {
            push_str(out, &['A', 'd', 'd', '(']);
            push_signed(out, n);
            out.push(')');
        },
        Instruction::Print => push_str(out, &['P', 'r', 'i', 'n', 't']),
        Instruction::Read => push_str(out, &['R', 'e', 'a', 'd']),
        Instruction::JumpIfZero(t) => {
            push_str(out, &['J', 'u', 'm', 'p', 'I', 'f', 'Z', 'e', 'r', 'o', '(']);
            push_decimal(out, t as u64);
            out.push(')');
        },
        Instruction::JumpIfNotZero(t) => {
            push_str(out, &['J', 'u', 'm', 'p', 'I', 'f', 'N', 'o', 't', 'Z', 'e', 'r', 'o', '(']);
            push_decimal(out, t as u64);
            out.push(')');
        },
        Instruction::SetZero => push_str(out, &['S', 'e', 't', 'Z', 'e', 'r', 'o']),
    }
    assert(out@ =~= start + instruction_text(ins));
}

/// The visit counts of an optional profile.
pub open spec fn counts_of(profile: Option<Vec<u64>>) -> Option<Seq<u64>> {
    match profile {
        Some(c) => Some(c@),
        None => None,
    }
}

fn push_line(out: &mut Vec<char>, ins: Instruction, number: u64, width: usize, level: usize, count: Option<u64>)
    ensures
        final(out)@ == old(out)@ + line_text(ins, number as nat, width as nat, level as nat, count),
{
    let ghost start = out@;
    let mut text: Vec<char> = Vec::new();
    push_decimal(&mut text, number);
    if text.len() < width {
        push_spaces(out, width - text.len());
    }
    push_str(out, text.as_slice());
    assert(out@ =~= start + pad_left(digits(number as nat), width as nat));
    out.push(' ');
    out.push(' ');
    let ghost pre_indent = out@;
    let mut k: usize = 0;
    while k < level
        invariant
            k <= level,
            out@ == pre_indent + spaces((3 * k) as nat),
        decreases level - k,
    {
        push_spaces(out, 3);
        k += 1;
        assert(out@ =~= pre_indent + spaces((3 * k) as nat));
    }
    let ghost pre_mark = out@;
    let mark = match ins {
        Instruction::JumpIfZero(_) => '\u{2b10}',
        Instruction::JumpIfNotZero(_) => '\u{2b11}',
        _ => ' ',
    };
    out.push(mark);
    push_instruction(out, ins);
    match count {
        Some(c) => {
            out.push(' ');
            push_decimal(out, c);
        },
        None => {},
    }
    out.push('\n');
    assert(out@ =~= start + line_text(ins, number as nat, width as nat, level as nat, count));
}

/// Relies on `String`'s `FromIterator<char>`: the string holds the characters
/// in order.
#[verifier::external_body]
fn string_from_chars(chars: &Vec<char>) -> (r: String)
    ensures
        r@ == chars@,
{
    String::from_iter(chars.iter())
}

/// One line per instruction: the line number, padded on the left to the width
/// of the largest one, two spaces, three spaces per enclosing loop, a mark on
/// loop opens and closes, the instruction's debug text, the visit count when a
/// profile is given, and a newline.
pub fn annotate(program: &[Instruction], profile: Option<Vec<u64>>) -> (r: String)
    requires
        nesting_ok(program@),
        profile matches Some(c) ==> c@.len() == program@.len(),
    ensures
        r@ == lines(program@, counts_of(profile), program@.len()),
{
    let ghost counts = counts_of(profile);
    let mut width_text: Vec<char> = Vec::new();
    push_decimal(&mut width_text, program.len() as u64);
    assert(width_text@ =~= digits(program@.len()));
    let width = width_text.len();
    let mut out: Vec<char> = Vec::new();
    let mut open: usize = 0;
    let mut i: usize = 0;
    while i < program.len()
        invariant
            i <= program@.len(),
            nesting_ok(program@),
            width == digits(program@.len()).len(),
            counts == counts_of(profile),
            profile matches Some(c) ==> c@.len() == program@.len(),
            open == depth(program@, i as nat),
            open <= i,
            out@ == lines(program@, counts, i as nat),
        decreases program@.len() - i,
    {
        let ghost before = out@;
        assert(depth(program@, (i + 1) as nat) >= 0);
        let ins = program[i];
        let level: usize = match ins {
            Instruction::JumpIfZero(_) => open + 1,
            _ => open,
        };
        let count: Option<u64> = match &profile {
            Some(c) => Some(c[i]),
            None => None,
        };
        push_line(&mut out, ins, (i + 1) as u64, width, level, count);
        assert(out@ =~= before + line(program@, counts, i as int));
        open = match ins {
            Instruction::JumpIfZero(_) => open + 1,
            Instruction::JumpIfNotZero(_) => open - 1,
            _ => open,
        };
        i += 1;
    }
    string_from_chars(&out)
}

} // verus!
