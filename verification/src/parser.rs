//! Reading a circuit from its textual description.
//!
//! The text is read line by line. A `qreg` or `creg` line sets the number
//! of qubits or of classical bits; a line that begins with `cx`, `h`, `x` or
//! `rz` is a gate; blank lines, `//` comments and every other line are
//! passed over.

use crate::angle::{literal_angle, Angle};
use crate::circuit::{gate_views, gate_views_push, CircuitView, Gate, GateView, QuantumCircuit};
use crate::text::{
    chars_of, find_first, first_in, parse_unsigned, pieces, pieces_unfold, starts_with,
    string_of, strip_leading, strip_trailing, trim, trimmed, unsigned_value, without_leading,
    without_trailing, CharSet,
};
use vstd::prelude::*;
use vstd::slice::slice_subrange;

verus! {

/// The size that a register declaration gives: the number between the first
/// bracket of the line and the next, 0 where no number stands there. A line
/// without a bracket gives no size.
pub open spec fn register_size(line: Seq<char>) -> Option<usize> {
    let open = first_in(line, CharSet::Brackets);
    if open < line.len() {
        let rest = line.skip(open + 1);
        match unsigned_value(rest.take(first_in(rest, CharSet::Brackets))) {
            Some(size) => Some(size),
            None => Some(0usize),
        }
    } else {
        None
    }
}

/// Whether `line` is read as a gate: it begins with `cx`, `h`, `x` or `rz`.
pub open spec fn is_gate_line(line: Seq<char>) -> bool {
    "cx"@.is_prefix_of(line) || "h"@.is_prefix_of(line) || "x"@.is_prefix_of(line)
        || "rz"@.is_prefix_of(line)
}

/// The numbers among `fields`, in order; a field that does not write a
/// number is passed over.
pub open spec fn numbers_in(fields: Seq<Seq<char>>) -> Seq<usize>
    decreases fields.len(),
{
    if fields.len() == 0 {
        Seq::empty()
    } else {
        let earlier = numbers_in(fields.drop_last());
        match unsigned_value(fields.last()) {
            Some(number) => earlier.push(number),
            None => earlier,
        }
    }
}

/// The first word of `line`: what stands between the white space at its
/// start and the next white space.
pub open spec fn first_word(line: Seq<char>) -> Seq<char> {
    let body = without_leading(line, CharSet::Whitespace);
    body.take(first_in(body, CharSet::Whitespace))
}

/// What follows the first word of `line`.
pub open spec fn after_first_word(line: Seq<char>) -> Seq<char> {
    let body = without_leading(line, CharSet::Whitespace);
    body.skip(first_in(body, CharSet::Whitespace))
}

/// The head of a gate line: its first word without the semicolons at its
/// end.
pub open spec fn gate_head(line: Seq<char>) -> Seq<char> {
    without_trailing(first_word(line), CharSet::Semicolon)
}

/// The name that a gate line gives its gate: the head of the line up to the
/// first opening parenthesis.
pub open spec fn gate_name(line: Seq<char>) -> Seq<char> {
    let head = gate_head(line);
    head.take(first_in(head, CharSet::OpeningParenthesis))
}

/// The parameters that a gate line gives its gate. Where the head of the
/// line holds an opening parenthesis there is one: the angle that is written
/// behind it, closing parentheses at the end left aside, or zero where no
/// decimal literal stands there. Else there is none.
pub open spec fn gate_params(line: Seq<char>) -> Seq<Angle> {
    let head = gate_head(line);
    let open = first_in(head, CharSet::OpeningParenthesis);
    if open < head.len() {
        let written = without_trailing(head.skip(open + 1), CharSet::ClosingParenthesis);
        match literal_angle(written) {
            Some(angle) => seq![angle],
            None => seq![Angle { femtoradians: 0 }],
        }
    } else {
        Seq::empty()
    }
}

/// The qubits that a gate line gives its gate: every number that stands
/// behind the first word between brackets, commas, semicolons and white
/// space.
pub open spec fn gate_qubits(line: Seq<char>) -> Seq<usize> {
    numbers_in(pieces(after_first_word(line), CharSet::Separators))
}

/// What is reported of a gate line that names no qubit.
pub open spec fn missing_qubits(line: Seq<char>) -> Seq<char> {
    "Failed to parse qubits from line: "@ + line
}

/// What a gate line is read as: a gate, or the report that the line names
/// no qubit.
pub open spec fn read_gate(line: Seq<char>) -> Result<GateView, Seq<char>> {
    if gate_qubits(line).len() == 0 {
        Err(missing_qubits(line))
    } else {
        Ok(GateView { name: gate_name(line), qubits: gate_qubits(line), params: gate_params(line) })
    }
}

/// The circuit once the line `line`, white space at its ends taken off, has
/// been read behind what gave `circuit`.
pub open spec fn read_line(circuit: CircuitView, line: Seq<char>) -> Result<
    CircuitView,
    Seq<char>,
> {
    if line.len() == 0 || "//"@.is_prefix_of(line) {
        Ok(circuit)
    } else if "qreg"@.is_prefix_of(line) {
        match register_size(line) {
            Some(size) => Ok(
                CircuitView {
                    num_qubits: size as nat,
                    num_clbits: circuit.num_clbits,
                    gates: circuit.gates,
                },
            ),
            None => Ok(circuit),
        }
    } else if "creg"@.is_prefix_of(line) {
        match register_size(line) {
            Some(size) => Ok(
                CircuitView {
                    num_qubits: circuit.num_qubits,
                    num_clbits: size as nat,
                    gates: circuit.gates,
                },
            ),
            None => Ok(circuit),
        }
    } else if is_gate_line(line) {
        match read_gate(line) {
            Ok(gate) => Ok(
                CircuitView {
                    num_qubits: circuit.num_qubits,
                    num_clbits: circuit.num_clbits,
                    gates: circuit.gates.push(gate),
                },
            ),
            Err(report) => Err(report),
        }
    } else {
        Ok(circuit)
    }
}

/// The circuit that `lines` describe, read in order from an empty circuit,
/// or the report of the first gate line among them that names no qubit.
pub open spec fn read_lines(lines: Seq<Seq<char>>) -> Result<CircuitView, Seq<char>>
    decreases lines.len(),
{
    if lines.len() == 0 {
        Ok(CircuitView { num_qubits: 0, num_clbits: 0, gates: Seq::empty() })
    } else {
        match read_lines(lines.drop_last()) {
            Ok(circuit) => read_line(circuit, trimmed(lines.last())),
            Err(report) => Err(report),
        }
    }
}

/// The circuit that `text` describes, or the report of its first gate line
/// that names no qubit.
pub open spec fn read_circuit(text: Seq<char>) -> Result<CircuitView, Seq<char>> {
    read_lines(pieces(text, CharSet::LineFeed))
}

/// Whether reading fails at `line`: it is read as a gate and names no
/// qubit.
pub open spec fn names_no_qubit(line: Seq<char>) -> bool {
    is_gate_line(line) && gate_qubits(line).len() == 0
}

/// Whether the line at `index` is the first of `lines` that, white space at
/// its ends taken off, is read as a gate and names no qubit.
pub open spec fn is_first_without_qubits(lines: Seq<Seq<char>>, index: int) -> bool {
    &&& 0 <= index < lines.len()
    &&& names_no_qubit(trimmed(lines[index]))
    &&& forall|j: int| 0 <= j < index ==> !names_no_qubit(#[trigger] trimmed(lines[j]))
}

/// Reads circuits from text.
#[derive(Debug, Clone, Copy)]
pub struct QASMParser;

impl QASMParser {
    /// Reads the size that a register declaration gives.
    fn read_register_size(line: &[char]) -> (size: Option<usize>)
        ensures
            size == register_size(line@),
    {
        let open = find_first(line, CharSet::Brackets);
        if open < line.len() {
            let rest = slice_subrange(line, open + 1, line.len());
            let close = find_first(rest, CharSet::Brackets);
            match parse_unsigned(slice_subrange(rest, 0, close)) {
                Some(size) => Some(size),
                None => Some(0),
            }
        } else {
            None
        }
    }

    /// Tells whether `line` is read as a gate.
    fn gate_line(line: &[char]) -> (found: bool)
        ensures
            found == is_gate_line(line@),
    {
        starts_with(line, "cx") || starts_with(line, "h") || starts_with(line, "x") || starts_with(
            line,
            "rz",
        )
    }

    /// Collects the numbers that stand in `text` between separators.
    fn read_numbers(text: &[char]) -> (numbers: Vec<usize>)
        ensures
            numbers@ == numbers_in(pieces(text@, CharSet::Separators)),
    {
        let ghost fields = pieces(text@, CharSet::Separators);
        let ghost mut done: int = 0;
        let mut numbers: Vec<usize> = Vec::new();
        let mut rest: &[char] = text;
        assert(fields.skip(0) =~= fields);
        while rest.len() > 0
            invariant
                0 <= done <= fields.len(),
                pieces(rest@, CharSet::Separators) == fields.skip(done),
                numbers@ == numbers_in(fields.take(done)),
            decreases rest@.len(),
        {
            let end = find_first(rest, CharSet::Separators);
            let field = slice_subrange(rest, 0, end);
            proof {
                pieces_unfold(rest@, CharSet::Separators);
                assert(fields.take(done + 1).drop_last() =~= fields.take(done));
            }
            match parse_unsigned(field) {
                Some(number) => {
                    numbers.push(number);
                },
                None => {},
            }
            if end < rest.len() {
                rest = slice_subrange(rest, end + 1, rest.len());
            } else {
                rest = slice_subrange(rest, end, end);
            }
            proof {
                done = done + 1;
            }
        }
        numbers
    }

    /// Makes the report of a gate line that names no qubit.
    fn report_missing_qubits(line: &[char]) -> (report: String)
        ensures
            report@ == missing_qubits(line@),
    {
        let mut report = String::from_str("Failed to parse qubits from line: ");
        let mut i: usize = 0;
        while i < line.len()
            invariant
                i <= line.len(),
                report@ == "Failed to parse qubits from line: "@ + line@.take(i as int),
            decreases line.len() - i,
        {
            report.push(line[i]);
            i = i + 1;
        }
        report
    }

    /// Reads a gate from the characters of its line.
    fn read_gate_line(line: &[char]) -> (result: Result<Gate, String>)
        ensures
            result is Ok <==> read_gate(line@) is Ok,
            result is Ok ==> result->Ok_0@ == read_gate(line@)->Ok_0,
            result is Err ==> result->Err_0@ == read_gate(line@)->Err_0,
    {
        let body = strip_leading(line, CharSet::Whitespace);
        let word_end = find_first(body, CharSet::Whitespace);
        let first = slice_subrange(body, 0, word_end);
        let remainder = slice_subrange(body, word_end, body.len());
        let head = strip_trailing(first, CharSet::Semicolon);
        let open = find_first(head, CharSet::OpeningParenthesis);
        let name = string_of(slice_subrange(head, 0, open));
        let mut params: Vec<Angle> = Vec::new();
        if open < head.len() {
            let inner = slice_subrange(head, open + 1, head.len());
            let written = strip_trailing(inner, CharSet::ClosingParenthesis);
            match Angle::read(written) {
                Some(angle) => {
                    params.push(angle);
                },
                None => {
                    params.push(Angle { femtoradians: 0 });
                },
            }
        }
        let qubits = Self::read_numbers(remainder);
        if qubits.len() == 0 {
            return Err(Self::report_missing_qubits(line));
        }
        Ok(Gate { name, qubits, params })
    }

    /// Reads a gate from its line: the name and, in parentheses, the angle
    /// from the first word, the qubits from what follows. Fails where no
    /// qubit follows.
    pub fn parse_gate(&self, line: &str) -> (result: Result<Gate, String>)
        ensures
            result is Ok <==> read_gate(line@) is Ok,
            result is Ok ==> result->Ok_0@ == read_gate(line@)->Ok_0,
            result is Err ==> result->Err_0@ == read_gate(line@)->Err_0,
    {
        let chars = chars_of(line);
        Self::read_gate_line(chars.as_slice())
    }

    /// Reads the circuit that `input` describes. Fails at the first gate
    /// line that names no qubit, and only there.
    pub fn parse(&self, input: &str) -> (result: Result<QuantumCircuit, String>)
        ensures
            result is Ok <==> read_circuit(input@) is Ok,
            result is Ok ==> result->Ok_0@ == read_circuit(input@)->Ok_0,
            result is Err ==> result->Err_0@ == read_circuit(input@)->Err_0,
    {
        let chars = chars_of(input);
        let ghost lines = pieces(input@, CharSet::LineFeed);
        let ghost mut done: int = 0;
        let mut num_qubits: usize = 0;
        let mut num_clbits: usize = 0;
        let mut gates: Vec<Gate> = Vec::new();
        let mut rest: &[char] = chars.as_slice();
        assert(lines.skip(0) =~= lines);
        assert(gate_views(gates@) =~= Seq::<GateView>::empty());
        while rest.len() > 0
            invariant
                lines == pieces(input@, CharSet::LineFeed),
                0 <= done <= lines.len(),
                pieces(rest@, CharSet::LineFeed) == lines.skip(done),
                read_lines(lines.take(done)) == Ok::<CircuitView, Seq<char>>(
                    CircuitView {
                        num_qubits: num_qubits as nat,
                        num_clbits: num_clbits as nat,
                        gates: gate_views(gates@),
                    },
                ),
            decreases rest@.len(),
        {
            let end = find_first(rest, CharSet::LineFeed);
            let line = trim(slice_subrange(rest, 0, end));
            proof {
                pieces_unfold(rest@, CharSet::LineFeed);
                assert(lines.take(done + 1).drop_last() =~= lines.take(done));
            }
            if line.len() == 0 || starts_with(line, "//") {
                // A blank line or a comment: nothing to read.
            } else if starts_with(line, "qreg") {
                match Self::read_register_size(line) {
                    Some(size) => {
                        num_qubits = size;
                    },
                    None => {},
                }
            } else if starts_with(line, "creg") {
                match Self::read_register_size(line) {
                    Some(size) => {
                        num_clbits = size;
                    },
                    None => {},
                }
            } else if Self::gate_line(line) {
                match Self::read_gate_line(line) {
                    Ok(gate) => {
                        proof {
                            gate_views_push(gates@, gate);
                        }
                        gates.push(gate);
                    },
                    Err(report) => {
                        proof {
                            read_lines_stay_failed(lines, done + 1);
                        }
                        return Err(report);
                    },
                }
            }
            if end < rest.len() {
                rest = slice_subrange(rest, end + 1, rest.len());
            } else {
                rest = slice_subrange(rest, end, end);
            }
            proof {
                done = done + 1;
            }
        }
        Ok(QuantumCircuit { num_qubits, num_clbits, gates })
    }
}

/// Once reading has failed, reading further lines fails with the same
/// report.
pub proof fn read_lines_stay_failed(lines: Seq<Seq<char>>, failed: int)
    requires
        0 <= failed <= lines.len(),
        read_lines(lines.take(failed)) is Err,
    ensures
        read_lines(lines) == read_lines(lines.take(failed)),
    decreases lines.len() - failed,
{
    if failed < lines.len() {
        assert(lines.drop_last().take(failed) =~= lines.take(failed));
        read_lines_stay_failed(lines.drop_last(), failed);
    } else {
        assert(lines.take(failed) =~= lines);
    }
}

/// Reading a line fails exactly where the line is read as a gate and names
/// no qubit, and the report then holds that line.
pub proof fn read_line_fails_only_for_want_of_qubits(circuit: CircuitView, line: Seq<char>)
    ensures
        read_line(circuit, line) is Err <==> names_no_qubit(line),
        names_no_qubit(line) ==> read_line(circuit, line) == Err::<CircuitView, Seq<char>>(
            missing_qubits(line),
        ),
{
    reveal_strlit("//");
    reveal_strlit("qreg");
    reveal_strlit("creg");
    reveal_strlit("cx");
    reveal_strlit("h");
    reveal_strlit("x");
    reveal_strlit("rz");
    if is_gate_line(line) {
        if "cx"@.is_prefix_of(line) {
            prefix_character("cx"@, line, 0);
            prefix_character("cx"@, line, 1);
        } else if "h"@.is_prefix_of(line) {
            prefix_character("h"@, line, 0);
        } else if "x"@.is_prefix_of(line) {
            prefix_character("x"@, line, 0);
        } else {
            prefix_character("rz"@, line, 0);
        }
        if "//"@.is_prefix_of(line) {
            prefix_character("//"@, line, 0);
        }
        if "qreg"@.is_prefix_of(line) {
            prefix_character("qreg"@, line, 0);
        }
        if "creg"@.is_prefix_of(line) {
            prefix_character("creg"@, line, 0);
            prefix_character("creg"@, line, 1);
        }
    }
}

/// A text agrees with its prefix at every index of the prefix.
proof fn prefix_character(prefix: Seq<char>, text: Seq<char>, at: int)
    requires
        prefix.is_prefix_of(text),
        0 <= at < prefix.len(),
    ensures
        at < text.len(),
        text[at] == prefix[at],
{
}

/// Reading succeeds exactly where no line, white space at its ends taken
/// off, is read as a gate and names no qubit. Where it fails, the report is
/// that of the first such line.
pub proof fn reading_fails_at_the_first_line_without_qubits(lines: Seq<Seq<char>>)
    ensures
        read_lines(lines) is Ok <==> forall|i: int|
            0 <= i < lines.len() ==> !names_no_qubit(#[trigger] trimmed(lines[i])),
        read_lines(lines) is Err ==> exists|i: int|
            #[trigger] is_first_without_qubits(lines, i) && read_lines(lines)->Err_0
                == missing_qubits(trimmed(lines[i])),
    decreases lines.len(),
{
    if lines.len() > 0 {
        let front = lines.drop_last();
        reading_fails_at_the_first_line_without_qubits(front);
        assert forall|i: int| 0 <= i < front.len() implies front[i] == lines[i] by {}
        match read_lines(front) {
            Ok(circuit) => {
                read_line_fails_only_for_want_of_qubits(circuit, trimmed(lines.last()));
                if names_no_qubit(trimmed(lines.last())) {
                    assert(is_first_without_qubits(lines, lines.len() - 1));
                }
            },
            Err(report) => {
                let first = choose|i: int|
                    #[trigger] is_first_without_qubits(front, i) && report == missing_qubits(
                        trimmed(front[i]),
                    );
                assert(is_first_without_qubits(lines, first));
            },
        }
    }
}

} // verus!
