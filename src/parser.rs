//! The two-pass assembler from program text to instructions.
//!
//! A line reads `[label ':'] MNEMONIC [operand] [';' comment]`, with words
//! separated by whitespace. The first pass scans every line that is not blank
//! or comment-only, checking its label, its mnemonic and the form of its
//! operand; the second resolves label operands to the index of the line that
//! declares the label, checks that operands fit in five bits, and builds the
//! instructions. Both passes stop at the first faulty line. When a label is
//! declared twice, the first declaration is the one used.

use vstd::prelude::*;

use crate::assembler::all_fit;
use crate::instruction::Instruction;
use crate::text::{
    all_alnum, all_digits, chars_of, decimal_value, find_char, first_index, is_alnum, is_digit,
    line_spans, same_as, source_lines, word_spans, words,
};

verus! {

/// Failures of assembling program text. Each carries the number of the line,
/// counted from 0 over the lines that are neither blank nor comment-only.
#[derive(Clone, Debug, PartialEq, Eq)]
pub enum ParseError {
    /// The line holds no instruction (only reported for a single line).
    Blank(usize),
    /// A label is followed by no mnemonic.
    OpcodeParseError(usize),
    /// An operand is required but missing, or is neither a number from 0 to
    /// 255 nor a label.
    OperandParseError(usize),
    /// An operand where none is allowed, or words after the operand.
    UnexpectedOperand(usize),
    /// The mnemonic is not one of the machine's.
    InvalidOpcode(usize),
    /// The text before `:` is not one alphanumeric word.
    InvalidLabel(usize),
    /// The program holds this many instructions, and memory holds fewer.
    ProgramTooLong(usize),
    /// The operand names this label, and no line declares it.
    InvalidSymbol(String, usize),
    /// The operand, as written or as resolved, is 32 or more.
    OperandOverflow(usize),
}

/// The mathematical value of a [`ParseError`].
pub enum ParseErrorModel {
    Blank(usize),
    OpcodeParseError(usize),
    OperandParseError(usize),
    UnexpectedOperand(usize),
    InvalidOpcode(usize),
    InvalidLabel(usize),
    ProgramTooLong(usize),
    InvalidSymbol(Seq<char>, usize),
    OperandOverflow(usize),
}

impl View for ParseError {
    type V = ParseErrorModel;

    open spec fn view(&self) -> ParseErrorModel {
        match self {
            ParseError::Blank(n) => ParseErrorModel::Blank(*n),
            ParseError::OpcodeParseError(n) => ParseErrorModel::OpcodeParseError(*n),
            ParseError::OperandParseError(n) => ParseErrorModel::OperandParseError(*n),
            ParseError::UnexpectedOperand(n) => ParseErrorModel::UnexpectedOperand(*n),
            ParseError::InvalidOpcode(n) => ParseErrorModel::InvalidOpcode(*n),
            ParseError::InvalidLabel(n) => ParseErrorModel::InvalidLabel(*n),
            ParseError::ProgramTooLong(n) => ParseErrorModel::ProgramTooLong(*n),
            ParseError::InvalidSymbol(name, n) => ParseErrorModel::InvalidSymbol(name@, *n),
            ParseError::OperandOverflow(n) => ParseErrorModel::OperandOverflow(*n),
        }
    }
}

/// The mnemonics, by what they assemble to. `Clear` and `Stop` assemble to
/// `Clear(0)` and `Clear(1)`; `Jump` is written `JMP` or `JUMP`; `Branch` is
/// written `BNZ`, `BUZ`, `BZC` or `BNE`.
#[derive(Clone, Copy, Debug, PartialEq, Eq, Structural)]
pub enum Opcode {
    Clear,
    Stop,
    Inc,
    Dec,
    Add,
    Load,
    Store,
    Jump,
    Branch,
}

/// An operand as written: a number or a label.
#[derive(Debug)]
pub enum Operand {
    Number(u8),
    Label(String),
}

/// The mathematical value of an [`Operand`].
pub enum OperandModel {
    Number(u8),
    Label(Seq<char>),
}

/// One scanned line.
#[derive(Debug)]
pub struct Line {
    pub label: Option<String>,
    pub opcode: Opcode,
    pub operand: Option<Operand>,
}

/// The mathematical value of a [`Line`].
pub struct LineModel {
    pub label: Option<Seq<char>>,
    pub opcode: Opcode,
    pub operand: Option<OperandModel>,
}

impl View for Operand {
    type V = OperandModel;

    open spec fn view(&self) -> OperandModel {
        match self {
            Operand::Number(v) => OperandModel::Number(*v),
            Operand::Label(l) => OperandModel::Label(l@),
        }
    }
}

impl View for Line {
    type V = LineModel;

    open spec fn view(&self) -> LineModel {
        LineModel {
            label: match self.label {
                Some(l) => Some(l@),
                None => None,
            },
            opcode: self.opcode,
            operand: match self.operand {
                Some(o) => Some(o@),
                None => None,
            },
        }
    }
}

impl Opcode {
    pub open spec fn takes_operand(self) -> bool {
        self is Add || self is Load || self is Store || self is Jump || self is Branch
    }

    /// Whether the mnemonic requires an operand.
    pub fn needs_operand(self) -> (r: bool)
        ensures
            r == self.takes_operand(),
    {
        match self {
            Opcode::Add | Opcode::Load | Opcode::Store | Opcode::Jump | Opcode::Branch => true,
            _ => false,
        }
    }
}

/// The mnemonic that a word spells, if any. Mnemonics are case-sensitive.
pub open spec fn opcode_of(w: Seq<char>) -> Option<Opcode> {
    if w == "CLEAR"@ {
        Some(Opcode::Clear)
    } else if w == "STOP"@ {
        Some(Opcode::Stop)
    } else if w == "INC"@ {
        Some(Opcode::Inc)
    } else if w == "DEC"@ {
        Some(Opcode::Dec)
    } else if w == "ADD"@ {
        Some(Opcode::Add)
    } else if w == "LOAD"@ {
        Some(Opcode::Load)
    } else if w == "STORE"@ {
        Some(Opcode::Store)
    } else if w == "JMP"@ || w == "JUMP"@ {
        Some(Opcode::Jump)
    } else if w == "BNZ"@ || w == "BUZ"@ || w == "BZC"@ || w == "BNE"@ {
        Some(Opcode::Branch)
    } else {
        None
    }
}

/// The operand that a word spells: a decimal number up to 255, or else an
/// alphanumeric label.
pub open spec fn operand_of(w: Seq<char>) -> Option<OperandModel> {
    if all_digits(w) {
        if decimal_value(w) <= 255 {
            Some(OperandModel::Number(decimal_value(w) as u8))
        } else {
            None
        }
    } else if all_alnum(w) {
        Some(OperandModel::Label(w))
    } else {
        None
    }
}

/// The part of a line before its comment.
pub open spec fn code_of(l: Seq<char>) -> Seq<char> {
    l.take(first_index(l, ';') as int)
}

/// Whether a line holds nothing but whitespace and a comment.
pub open spec fn is_blank(l: Seq<char>) -> bool {
    words(code_of(l)).len() == 0
}

/// The mnemonic and operand words `toks` after the label, if any, of line `n`.
pub open spec fn statement(label: Option<Seq<char>>, toks: Seq<Seq<char>>, n: usize) -> Result<
    LineModel,
    ParseErrorModel,
> {
    if toks.len() == 0 {
        Err(ParseErrorModel::OpcodeParseError(n))
    } else {
        match opcode_of(toks[0]) {
            None => Err(ParseErrorModel::InvalidOpcode(n)),
            Some(op) => if !op.takes_operand() {
                if toks.len() > 1 {
                    Err(ParseErrorModel::UnexpectedOperand(n))
                } else {
                    Ok(LineModel { label, opcode: op, operand: None })
                }
            } else if toks.len() == 1 {
                Err(ParseErrorModel::OperandParseError(n))
            } else if toks.len() > 2 {
                Err(ParseErrorModel::UnexpectedOperand(n))
            } else {
                match operand_of(toks[1]) {
                    None => Err(ParseErrorModel::OperandParseError(n)),
                    Some(o) => Ok(LineModel { label, opcode: op, operand: Some(o) }),
                }
            },
        }
    }
}

/// The first pass on line `n`: `None` for a blank or comment-only line.
pub open spec fn scan_line_spec(l: Seq<char>, n: usize) -> Result<Option<LineModel>, ParseErrorModel> {
    let code = code_of(l);
    let k = first_index(code, ':');
    let head = words(code.take(k as int));
    if is_blank(l) {
        Ok(None)
    } else if k < code.len() {
        if head.len() == 1 && all_alnum(head[0]) {
            match statement(Some(head[0]), words(code.skip(k + 1int)), n) {
                Ok(line) => Ok(Some(line)),
                Err(e) => Err(e),
            }
        } else {
            Err(ParseErrorModel::InvalidLabel(n))
        }
    } else {
        match statement(None, words(code), n) {
            Ok(line) => Ok(Some(line)),
            Err(e) => Err(e),
        }
    }
}

pub open spec fn scanned_view(r: Result<Option<Line>, ParseError>) -> Result<
    Option<LineModel>,
    ParseErrorModel,
> {
    match r {
        Ok(Some(line)) => Ok(Some(line@)),
        Ok(None) => Ok(None),
        Err(e) => Err(e@),
    }
}

/// A result with its error replaced by the error's view.
pub open spec fn error_view<T>(r: Result<T, ParseError>) -> Result<T, ParseErrorModel> {
    match r {
        Ok(v) => Ok(v),
        Err(e) => Err(e@),
    }
}

/// The mnemonic spelled by `s[from..to]`.
fn opcode_from(s: &Vec<char>, from: usize, to: usize) -> (r: Option<Opcode>)
    requires
        from <= to <= s@.len(),
    ensures
        r == opcode_of(s@.subrange(from as int, to as int)),
{
    if same_as(s, from, to, "CLEAR") {
        Some(Opcode::Clear)
    } else if same_as(s, from, to, "STOP") {
        Some(Opcode::Stop)
    } else if same_as(s, from, to, "INC") {
        Some(Opcode::Inc)
    } else if same_as(s, from, to, "DEC") {
        Some(Opcode::Dec)
    } else if same_as(s, from, to, "ADD") {
        Some(Opcode::Add)
    } else if same_as(s, from, to, "LOAD") {
        Some(Opcode::Load)
    } else if same_as(s, from, to, "STORE") {
        Some(Opcode::Store)
    } else if same_as(s, from, to, "JMP") || same_as(s, from, to, "JUMP") {
        Some(Opcode::Jump)
    } else if same_as(s, from, to, "BNZ") || same_as(s, from, to, "BUZ") || same_as(
        s,
        from,
        to,
        "BZC",
    ) || same_as(s, from, to, "BNE") {
        Some(Opcode::Branch)
    } else {
        None
    }
}

/// Whether every character of `s[from..to]` is an ASCII letter or digit.
fn all_alnum_in(s: &Vec<char>, from: usize, to: usize) -> (r: bool)
    requires
        from <= to <= s@.len(),
    ensures
        r == all_alnum(s@.subrange(from as int, to as int)),
{
    let mut i = from;
    while i < to
        invariant
            from <= i <= to <= s@.len(),
            forall|j: int| from <= j < i ==> is_alnum(s@[j]),
        decreases to - i,
    {
        let c = s[i];
        if !(('0' <= c && c <= '9') || ('a' <= c && c <= 'z') || ('A' <= c && c <= 'Z')) {
            assert(!is_alnum(s@.subrange(from as int, to as int)[i - from]));
            return false;
        }
        i = i + 1;
    }
    true
}

/// The operand spelled by the word `s[from..to]`.
fn operand_from(s: &Vec<char>, src: &str, from: usize, to: usize) -> (r: Option<Operand>)
    requires
        from <= to <= s@.len(),
        s@ == src@,
    ensures
        r matches Some(o) ==> operand_of(s@.subrange(from as int, to as int)) == Some(o@),
        r is None ==> operand_of(s@.subrange(from as int, to as int)) is None,
{
    let ghost w = s@.subrange(from as int, to as int);
    let mut i = from;
    let mut digits = true;
    let mut value: u16 = 0;
    while i < to
        invariant
            from <= i <= to <= s@.len(),
            digits == all_digits(s@.subrange(from as int, i as int)),
            digits && value <= 255 ==> value == decimal_value(s@.subrange(from as int, i as int)),
            digits && value > 255 ==> decimal_value(s@.subrange(from as int, i as int)) > 255,
            value <= 2559,
        decreases to - i,
    {
        let c = s[i];
        let ghost before = s@.subrange(from as int, i as int);
        let ghost after = s@.subrange(from as int, i + 1);
        assert(after.drop_last() =~= before);
        assert(after.last() == c);
        if digits && '0' <= c && c <= '9' {
            if value <= 255 {
                value = value * 10 + (c as u32 - '0' as u32) as u16;
            }
        } else {
            digits = false;
        }
        assert(digits == all_digits(after)) by {
            if digits {
                assert forall|j: int| 0 <= j < after.len() implies is_digit(#[trigger] after[j]) by {
                    if j < before.len() {
                        assert(after[j] == before[j]);
                    }
                }
            } else if !all_digits(before) {
                let j = choose|j: int| 0 <= j < before.len() && !is_digit(#[trigger] before[j]);
                assert(after[j] == before[j]);
            }
        }
        i = i + 1;
    }
    if digits {
        if value <= 255 {
            Some(Operand::Number(value as u8))
        } else {
            None
        }
    } else if all_alnum_in(s, from, to) {
        Some(Operand::Label(String::from_str(src.substring_char(from, to))))
    } else {
        None
    }
}

/// The first pass on the line `s[from..to]`, which is line `number`.
fn scan_line(s: &Vec<char>, src: &str, from: usize, to: usize, number: usize) -> (r: Result<
    Option<Line>,
    ParseError,
>)
    requires
        from <= to <= s@.len(),
        s@ == src@,
    ensures
        scanned_view(r) == scan_line_spec(s@.subrange(from as int, to as int), number),
{
    let ghost l = s@.subrange(from as int, to as int);
    let end = find_char(s, from, to, ';');
    let ghost code = s@.subrange(from as int, end as int);
    assert(code_of(l) =~= code);
    let all = word_spans(s, from, end);
    if all.len() == 0 {
        return Ok(None);
    }
    let colon = find_char(s, from, end, ':');
    let mut label: Option<String> = None;
    let mut body = from;
    if colon < end {
        let head = word_spans(s, from, colon);
        assert(code.take(colon - from) =~= s@.subrange(from as int, colon as int));
        if head.len() != 1 {
            return Err(ParseError::InvalidLabel(number));
        }
        let (a, b) = head[0];
        if !all_alnum_in(s, a, b) {
            return Err(ParseError::InvalidLabel(number));
        }
        label = Some(String::from_str(src.substring_char(a, b)));
        body = colon + 1;
        assert(code.skip(colon - from + 1) =~= s@.subrange(body as int, end as int));
    } else {
        assert(code =~= s@.subrange(body as int, end as int));
    }
    let toks = word_spans(s, body, end);
    let ghost tw = words(s@.subrange(body as int, end as int));
    if toks.len() == 0 {
        return Err(ParseError::OpcodeParseError(number));
    }
    let (a0, b0) = toks[0];
    assert(s@.subrange(a0 as int, b0 as int) == tw[0]);
    let opcode = match opcode_from(s, a0, b0) {
        Some(op) => op,
        None => {
            return Err(ParseError::InvalidOpcode(number));
        },
    };
    if !opcode.needs_operand() {
        if toks.len() > 1 {
            return Err(ParseError::UnexpectedOperand(number));
        }
        return Ok(Some(Line { label, opcode, operand: None }));
    }
    if toks.len() == 1 {
        return Err(ParseError::OperandParseError(number));
    }
    if toks.len() > 2 {
        return Err(ParseError::UnexpectedOperand(number));
    }
    let (a1, b1) = toks[1];
    assert(s@.subrange(a1 as int, b1 as int) == tw[1]);
    match operand_from(s, src, a1, b1) {
        Some(operand) => Ok(Some(Line { label, opcode, operand: Some(operand) })),
        None => Err(ParseError::OperandParseError(number)),
    }
}

/// The views of scanned lines.
pub open spec fn lines_view(v: Seq<Line>) -> Seq<LineModel> {
    v.map_values(|l: Line| l@)
}

/// The first pass over the lines `ls`: the scanned lines, numbered from 0 and
/// skipping blank ones, or the first line's failure.
pub open spec fn scan_lines(ls: Seq<Seq<char>>) -> Result<Seq<LineModel>, ParseErrorModel>
    decreases ls.len(),
{
    if ls.len() == 0 {
        Ok(seq![])
    } else {
        match scan_lines(ls.drop_last()) {
            Err(e) => Err(e),
            Ok(prev) => match scan_line_spec(ls.last(), prev.len() as usize) {
                Err(e) => Err(e),
                Ok(None) => Ok(prev),
                Ok(Some(line)) => Ok(prev.push(line)),
            },
        }
    }
}

/// The index of the first line that declares the label `name`.
pub open spec fn first_label(lines: Seq<LineModel>, name: Seq<char>) -> Option<int>
    decreases lines.len(),
{
    if lines.len() == 0 {
        None
    } else {
        match first_label(lines.drop_last(), name) {
            Some(i) => Some(i),
            None => if lines.last().label == Some(name) {
                Some(lines.len() - 1)
            } else {
                None
            },
        }
    }
}

/// The instruction a mnemonic assembles to, with operand `v` where it takes one.
pub open spec fn build(op: Opcode, v: u8) -> Instruction {
    match op {
        Opcode::Clear => Instruction::Clear(0),
        Opcode::Stop => Instruction::Clear(1),
        Opcode::Inc => Instruction::Inc,
        Opcode::Dec => Instruction::Dec,
        Opcode::Add => Instruction::Add(v),
        Opcode::Load => Instruction::Load(v),
        Opcode::Store => Instruction::Store(v),
        Opcode::Jump => Instruction::Jump(v),
        Opcode::Branch => Instruction::Bnz(v),
    }
}

/// The second pass on line `n` of `lines`.
pub open spec fn resolve_line_spec(line: LineModel, n: usize, lines: Seq<LineModel>) -> Result<
    Instruction,
    ParseErrorModel,
> {
    match line.operand {
        None => Ok(build(line.opcode, 0)),
        Some(OperandModel::Number(v)) => if v >= 32 {
            Err(ParseErrorModel::OperandOverflow(n))
        } else {
            Ok(build(line.opcode, v))
        },
        Some(OperandModel::Label(name)) => match first_label(lines, name) {
            None => Err(ParseErrorModel::InvalidSymbol(name, n)),
            Some(i) => if i >= 32 {
                Err(ParseErrorModel::OperandOverflow(n))
            } else {
                Ok(build(line.opcode, i as u8))
            },
        },
    }
}

/// The second pass over the first `k` lines.
pub open spec fn resolve_prefix(lines: Seq<LineModel>, k: nat) -> Result<Seq<Instruction>, ParseErrorModel>
    decreases k,
{
    if k == 0 {
        Ok(seq![])
    } else {
        match resolve_prefix(lines, (k - 1) as nat) {
            Err(e) => Err(e),
            Ok(prev) => match resolve_line_spec(lines[k - 1], (k - 1) as usize, lines) {
                Err(e) => Err(e),
                Ok(i) => Ok(prev.push(i)),
            },
        }
    }
}

/// What the program text assembles to: the first pass over every line, the
/// length check, then the second pass.
pub open spec fn assemble_text(text: Seq<char>) -> Result<Seq<Instruction>, ParseErrorModel> {
    match scan_lines(source_lines(text)) {
        Err(e) => Err(e),
        Ok(lines) => if lines.len() >= 32 {
            Err(ParseErrorModel::ProgramTooLong(lines.len() as usize))
        } else {
            resolve_prefix(lines, lines.len())
        },
    }
}

/// A line taken on its own: numbers as written, and no label to resolve.
pub open spec fn literal_instruction(line: LineModel, n: usize) -> Result<Instruction, ParseErrorModel> {
    match line.operand {
        None => Ok(build(line.opcode, 0)),
        Some(OperandModel::Number(v)) => Ok(build(line.opcode, v)),
        Some(OperandModel::Label(name)) => Err(ParseErrorModel::InvalidSymbol(name, n)),
    }
}

/// What the single line `l`, numbered `n`, assembles to.
pub open spec fn line_instruction(l: Seq<char>, n: usize) -> Result<Instruction, ParseErrorModel> {
    match scan_line_spec(l, n) {
        Err(e) => Err(e),
        Ok(None) => Err(ParseErrorModel::Blank(n)),
        Ok(Some(line)) => literal_instruction(line, n),
    }
}

proof fn lemma_scan_error_persists(ls: Seq<Seq<char>>, j: int, e: ParseErrorModel)
    requires
        0 <= j <= ls.len(),
        scan_lines(ls.take(j)) == Err::<Seq<LineModel>, ParseErrorModel>(e),
    ensures
        scan_lines(ls) == Err::<Seq<LineModel>, ParseErrorModel>(e),
    decreases ls.len() - j,
{
    if j < ls.len() {
        assert(ls.take(j + 1).drop_last() =~= ls.take(j));
        lemma_scan_error_persists(ls, j + 1, e);
    } else {
        assert(ls.take(j) =~= ls);
    }
}

proof fn lemma_label_persists(lines: Seq<LineModel>, j: int, name: Seq<char>, i: int)
    requires
        0 <= j <= lines.len(),
        first_label(lines.take(j), name) == Some(i),
    ensures
        first_label(lines, name) == Some(i),
    decreases lines.len() - j,
{
    if j < lines.len() {
        assert(lines.take(j + 1).drop_last() =~= lines.take(j));
        lemma_label_persists(lines, j + 1, name, i);
    } else {
        assert(lines.take(j) =~= lines);
    }
}

proof fn lemma_resolve_error_persists(lines: Seq<LineModel>, j: nat, e: ParseErrorModel)
    requires
        j <= lines.len(),
        resolve_prefix(lines, j) == Err::<Seq<Instruction>, ParseErrorModel>(e),
    ensures
        resolve_prefix(lines, lines.len()) == Err::<Seq<Instruction>, ParseErrorModel>(e),
    decreases lines.len() - j,
{
    if j < lines.len() {
        lemma_resolve_error_persists(lines, j + 1, e);
    }
}

/// The first pass over every line of `text`.
fn scan_program(text: &Vec<char>, src: &str) -> (r: Result<Vec<Line>, ParseError>)
    requires
        text@ == src@,
    ensures
        r matches Ok(v) ==> scan_lines(source_lines(text@)) == Ok::<Seq<LineModel>, ParseErrorModel>(
            lines_view(v@),
        ),
        r matches Err(e) ==> scan_lines(source_lines(text@)) == Err::<Seq<LineModel>, ParseErrorModel>(
            e@,
        ),
{
    let spans = line_spans(text);
    let ghost ls = source_lines(text@);
    let mut lines: Vec<Line> = Vec::new();
    let mut k: usize = 0;
    assert(ls.take(0) =~= seq![]);
    assert(lines_view(lines@) =~= seq![]);
    while k < spans.len()
        invariant
            k <= spans@.len() == ls.len(),
            ls == source_lines(text@),
            text@ == src@,
            forall|j: int|
                0 <= j < spans@.len() ==> (#[trigger] spans@[j]).0 <= spans@[j].1 <= text@.len()
                    && text@.subrange(spans@[j].0 as int, spans@[j].1 as int) == ls[j],
            scan_lines(ls.take(k as int)) == Ok::<Seq<LineModel>, ParseErrorModel>(lines_view(lines@)),
        decreases spans@.len() - k,
    {
        let (a, b) = spans[k];
        let ghost prev = lines_view(lines@);
        assert(ls.take(k + 1).drop_last() =~= ls.take(k as int));
        assert(ls.take(k + 1).last() == ls[k as int]);
        assert(prev.len() == lines@.len());
        match scan_line(text, src, a, b, lines.len()) {
            Err(e) => {
                assert(scan_line_spec(ls[k as int], lines.len()) == Err::<Option<LineModel>, ParseErrorModel>(e@));
                assert(scan_lines(ls.take(k + 1)) == Err::<Seq<LineModel>, ParseErrorModel>(e@));
                proof {
                    lemma_scan_error_persists(ls, k + 1, e@);
                }
                return Err(e);
            },
            Ok(None) => {},
            Ok(Some(line)) => {
                lines.push(line);
                assert(lines_view(lines@) =~= prev.push(line@));
            },
        }
        k = k + 1;
    }
    assert(ls.take(k as int) =~= ls);
    Ok(lines)
}

/// The index of the first line that declares the label `name`.
fn find_label(lines: &Vec<Line>, name: &String) -> (r: Option<usize>)
    ensures
        r matches Some(i) ==> first_label(lines_view(lines@), name@) == Some(i as int),
        r is None ==> first_label(lines_view(lines@), name@) is None,
{
    let ghost all = lines_view(lines@);
    let mut k: usize = 0;
    while k < lines.len()
        invariant
            k <= lines@.len(),
            all == lines_view(lines@),
            first_label(all.take(k as int), name@) is None,
        decreases lines@.len() - k,
    {
        assert(all.take(k + 1).drop_last() =~= all.take(k as int));
        assert(all.take(k + 1).last() == lines@[k as int]@);
        let found = match &lines[k].label {
            Some(l) => *l == *name,
            None => false,
        };
        if found {
            proof {
                lemma_label_persists(all, k + 1, name@, k as int);
            }
            return Some(k);
        }
        k = k + 1;
    }
    assert(all.take(k as int) =~= all);
    None
}

/// The instruction a mnemonic assembles to, with operand `v` where it takes one.
fn build_instruction(op: Opcode, v: u8) -> (r: Instruction)
    ensures
        r == build(op, v),
{
    match op {
        Opcode::Clear => Instruction::Clear(0),
        Opcode::Stop => Instruction::Clear(1),
        Opcode::Inc => Instruction::Inc,
        Opcode::Dec => Instruction::Dec,
        Opcode::Add => Instruction::Add(v),
        Opcode::Load => Instruction::Load(v),
        Opcode::Store => Instruction::Store(v),
        Opcode::Jump => Instruction::Jump(v),
        Opcode::Branch => Instruction::Bnz(v),
    }
}

/// The second pass on `line`, line `number` of `lines`.
fn resolve_line(line: &Line, number: usize, lines: &Vec<Line>) -> (r: Result<Instruction, ParseError>)
    ensures
        error_view(r) == resolve_line_spec(line@, number, lines_view(lines@)),
{
    match &line.operand {
        None => Ok(build_instruction(line.opcode, 0)),
        Some(Operand::Number(v)) => {
            if *v >= 32 {
                Err(ParseError::OperandOverflow(number))
            } else {
                Ok(build_instruction(line.opcode, *v))
            }
        },
        Some(Operand::Label(name)) => match find_label(lines, name) {
            None => Err(ParseError::InvalidSymbol(name.clone(), number)),
            Some(i) => {
                if i >= 32 {
                    Err(ParseError::OperandOverflow(number))
                } else {
                    Ok(build_instruction(line.opcode, i as u8))
                }
            },
        },
    }
}

/// The second pass over every scanned line.
fn resolve_all(lines: &Vec<Line>) -> (r: Result<Vec<Instruction>, ParseError>)
    ensures
        r matches Ok(v) ==> resolve_prefix(lines_view(lines@), lines@.len()) == Ok::<
            Seq<Instruction>,
            ParseErrorModel,
        >(v@),
        r matches Err(e) ==> resolve_prefix(lines_view(lines@), lines@.len()) == Err::<
            Seq<Instruction>,
            ParseErrorModel,
        >(e@),
{
    let ghost all = lines_view(lines@);
    let mut out: Vec<Instruction> = Vec::new();
    let mut k: usize = 0;
    while k < lines.len()
        invariant
            k <= lines@.len(),
            all == lines_view(lines@),
            resolve_prefix(all, k as nat) == Ok::<Seq<Instruction>, ParseErrorModel>(out@),
        decreases lines@.len() - k,
    {
        assert(all[k as int] == lines@[k as int]@);
        match resolve_line(&lines[k], k, lines) {
            Err(e) => {
                proof {
                    lemma_resolve_error_persists(all, (k + 1) as nat, e@);
                }
                return Err(e);
            },
            Ok(i) => {
                out.push(i);
            },
        }
        k = k + 1;
    }
    Ok(out)
}

/// Assembles program text into instructions: every line that is neither
/// blank nor comment-only is scanned, a program of 32 or more instructions is
/// refused, then label operands are resolved and operands range-checked.
pub fn parse_file(file: &str) -> (r: Result<Vec<Instruction>, ParseError>)
    ensures
        r matches Ok(v) ==> assemble_text(file@) == Ok::<Seq<Instruction>, ParseErrorModel>(v@),
        r matches Err(e) ==> assemble_text(file@) == Err::<Seq<Instruction>, ParseErrorModel>(e@),
{
    let text = chars_of(file);
    let lines = match scan_program(&text, file) {
        Ok(lines) => lines,
        Err(e) => {
            return Err(e);
        },
    };
    if lines.len() >= 32 {
        return Err(ParseError::ProgramTooLong(lines.len()));
    }
    resolve_all(&lines)
}

/// Assembles one line on its own, as line `number`: numeric operands are
/// taken as written, without the range check, and a label operand cannot be
/// resolved. A blank or comment-only line gives `Blank`.
pub fn parse_line(line: &str, number: usize) -> (r: Result<Instruction, ParseError>)
    ensures
        error_view(r) == line_instruction(line@, number),
{
    let text = chars_of(line);
    assert(text@.subrange(0, text@.len() as int) =~= line@);
    match scan_line(&text, line, 0, text.len(), number) {
        Err(e) => Err(e),
        Ok(None) => Err(ParseError::Blank(number)),
        Ok(Some(scanned)) => match scanned.operand {
            None => Ok(build_instruction(scanned.opcode, 0)),
            Some(Operand::Number(v)) => Ok(build_instruction(scanned.opcode, v)),
            Some(Operand::Label(name)) => Err(ParseError::InvalidSymbol(name, number)),
        },
    }
}

/// A program whose lines all scan, and that holds 32 or more instructions, is
/// refused as too long, whatever its operands and labels are.
pub proof fn lemma_too_long_refused(text: Seq<char>, lines: Seq<LineModel>)
    requires
        scan_lines(source_lines(text)) == Ok::<Seq<LineModel>, ParseErrorModel>(lines),
        lines.len() >= 32,
    ensures
        assemble_text(text) == Err::<Seq<Instruction>, ParseErrorModel>(
            ParseErrorModel::ProgramTooLong(lines.len() as usize),
        ),
{
}

proof fn lemma_first_label_bounds(lines: Seq<LineModel>, name: Seq<char>)
    ensures
        first_label(lines, name) matches Some(i) ==> 0 <= i < lines.len(),
    decreases lines.len(),
{
    if lines.len() > 0 {
        lemma_first_label_bounds(lines.drop_last(), name);
    }
}

proof fn lemma_build_fits(op: Opcode, v: u8)
    requires
        v < 32,
    ensures
        build(op, v).fits(),
{
}

proof fn lemma_resolved_line_fits(line: LineModel, n: usize, lines: Seq<LineModel>)
    ensures
        resolve_line_spec(line, n, lines) matches Ok(i) ==> i.fits(),
{
    match line.operand {
        None => lemma_build_fits(line.opcode, 0),
        Some(OperandModel::Number(v)) => if v < 32 {
            lemma_build_fits(line.opcode, v)
        },
        Some(OperandModel::Label(name)) => if let Some(i) = first_label(lines, name) {
            lemma_first_label_bounds(lines, name);
            if i < 32 {
                lemma_build_fits(line.opcode, i as u8)
            }
        },
    }
}

proof fn lemma_resolved_prefix_fits(lines: Seq<LineModel>, k: nat)
    requires
        k <= lines.len(),
    ensures
        resolve_prefix(lines, k) matches Ok(prog) ==> prog.len() == k && all_fit(prog),
    decreases k,
{
    if k > 0 {
        lemma_resolved_prefix_fits(lines, (k - 1) as nat);
        lemma_resolved_line_fits(lines[k - 1], (k - 1) as usize, lines);
        if let Ok(prog) = resolve_prefix(lines, k) {
            let prev = resolve_prefix(lines, (k - 1) as nat)->Ok_0;
            assert(prog == prev.push(prog.last()));
            assert forall|j: int| 0 <= j < prog.len() implies (#[trigger] prog[j]).fits() by {
                if j < prev.len() {
                    assert(prog[j] == prev[j]);
                }
            }
        }
    }
}

/// Every instruction of an assembled program can be encoded: operands were
/// range-checked when the program was assembled.
pub proof fn lemma_assembled_program_fits(text: Seq<char>)
    ensures
        assemble_text(text) matches Ok(prog) ==> all_fit(prog),
{
    if let Ok(lines) = scan_lines(source_lines(text)) {
        lemma_resolved_prefix_fits(lines, lines.len());
    }
}

proof fn lemma_first_label_prefix(lines: Seq<LineModel>, name: Seq<char>, k: int, m: int)
    requires
        0 <= k < lines.len(),
        0 <= m <= lines.len(),
        lines[k].label == Some(name),
        forall|i: int| 0 <= i < k ==> lines[i].label != Some(name),
    ensures
        first_label(lines.take(m), name) == (if m > k {
            Some(k)
        } else {
            None::<int>
        }),
    decreases m,
{
    if m > 0 {
        lemma_first_label_prefix(lines, name, k, m - 1);
        assert(lines.take(m).drop_last() =~= lines.take(m - 1));
        assert(lines.take(m).last() == lines[m - 1]);
    }
}

proof fn lemma_resolved_prefix_items(lines: Seq<LineModel>, m: nat)
    requires
        m <= lines.len(),
    ensures
        resolve_prefix(lines, m) matches Ok(prog) ==> prog.len() == m && forall|i: int|
            0 <= i < m ==> resolve_line_spec(lines[i], i as usize, lines) == Ok::<
                Instruction,
                ParseErrorModel,
            >(#[trigger] prog[i]),
    decreases m,
{
    if m > 0 {
        lemma_resolved_prefix_items(lines, (m - 1) as nat);
        if let Ok(prog) = resolve_prefix(lines, m) {
            let prev = resolve_prefix(lines, (m - 1) as nat)->Ok_0;
            assert forall|i: int| 0 <= i < m implies resolve_line_spec(
                lines[i],
                i as usize,
                lines,
            ) == Ok::<Instruction, ParseErrorModel>(#[trigger] prog[i]) by {
                if i < m - 1 {
                    assert(prog[i] == prev[i]);
                }
            }
        }
    }
}

/// A label operand assembles to the index of the first line that declares
/// the label, whether that line comes before or after the use.
pub proof fn lemma_label_resolves_to_declaring_line(
    text: Seq<char>,
    lines: Seq<LineModel>,
    prog: Seq<Instruction>,
    name: Seq<char>,
    j: int,
    k: int,
)
    requires
        scan_lines(source_lines(text)) == Ok::<Seq<LineModel>, ParseErrorModel>(lines),
        assemble_text(text) == Ok::<Seq<Instruction>, ParseErrorModel>(prog),
        0 <= j < lines.len(),
        0 <= k < lines.len(),
        lines[j].operand == Some(OperandModel::Label(name)),
        lines[k].label == Some(name),
        forall|i: int| 0 <= i < k ==> lines[i].label != Some(name),
    ensures
        prog.len() == lines.len(),
        prog[j] == build(lines[j].opcode, k as u8),
{
    lemma_first_label_prefix(lines, name, k, lines.len() as int);
    assert(lines.take(lines.len() as int) =~= lines);
    lemma_resolved_prefix_items(lines, lines.len());
    assert(resolve_line_spec(lines[j], j as usize, lines) == Ok::<Instruction, ParseErrorModel>(
        prog[j],
    ));
}

} // verus!
