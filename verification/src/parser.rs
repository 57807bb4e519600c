//! Line-oriented tokenizer for motion-instruction text.
//!
//! Input is raw bytes. Each line is scanned into letter-coded words (a letter
//! followed by a fixed-point number); words are then grouped into commands: a
//! command letter (`G`, `M`, `T`, `O`) opens a command, axis letters (`X`,
//! `Y`, `Z`, `E`) attach arguments to the open command, and any other word is
//! ignored. A line that fails to scan contributes no commands at all; blank
//! lines and comment lines likewise contribute nothing.
use vstd::prelude::*;

use crate::geometry::COORD_LIMIT;

verus! {

/// A letter-coded word: the (uppercased) letter and its fixed-point value.
#[derive(Clone, Copy, PartialEq, Eq, Structural, Debug)]
pub struct Word {
    pub letter: u8,
    pub value: i64,
}

/// The axis arguments a motion command carries; `None` means the axis was not
/// mentioned and its previous value carries forward.
#[derive(Clone, Copy, PartialEq, Eq, Structural, Debug)]
pub struct AxisArgs {
    pub x: Option<i64>,
    pub y: Option<i64>,
    pub z: Option<i64>,
    pub e: Option<i64>,
}

/// One command: its letter, its code as a fixed-point value (`G1` has code
/// 1000), and the axis arguments that followed it on the line.
#[derive(Clone, Copy, PartialEq, Eq, Structural, Debug)]
pub struct Command {
    pub letter: u8,
    pub code: i64,
    pub args: AxisArgs,
}

pub open spec fn no_args() -> AxisArgs {
    AxisArgs { x: None, y: None, z: None, e: None }
}

pub open spec fn is_space(b: u8) -> bool {
    b == 32 || b == 9 || b == 13
}

pub open spec fn is_digit(b: u8) -> bool {
    48 <= b <= 57
}

pub open spec fn is_letter(b: u8) -> bool {
    (65 <= b <= 90) || (97 <= b <= 122)
}

pub open spec fn upper(b: u8) -> u8 {
    if 97 <= b <= 122 {
        (b - 32) as u8
    } else {
        b
    }
}

/// Accumulation of integer digits, saturating at `COORD_LIMIT`. Returns the
/// accumulated value and the index of the first non-digit byte.
pub open spec fn int_digits(s: Seq<u8>, i: int, acc: int) -> (int, int)
    decreases s.len() - i,
{
    if 0 <= i < s.len() && is_digit(s[i]) {
        int_digits(s, i + 1, sat_limit(acc * 10 + (s[i] - 48)))
    } else {
        (acc, i)
    }
}

/// Saturation of a non-negative accumulator at `COORD_LIMIT`.
pub open spec fn sat_limit(v: int) -> int {
    if v > COORD_LIMIT as int {
        COORD_LIMIT as int
    } else {
        v
    }
}

/// The weight of the next fractional digit: thousandths keep three places.
pub open spec fn next_weight(w: int) -> int {
    if w == 100 {
        10
    } else if w == 10 {
        1
    } else {
        0
    }
}

/// Accumulation of fractional digits at decreasing weights, saturating at
/// `COORD_LIMIT`. Digits past the third contribute nothing but are consumed.
pub open spec fn frac_digits(s: Seq<u8>, i: int, w: int, acc: int) -> (int, int)
    decreases s.len() - i,
{
    if 0 <= i < s.len() && is_digit(s[i]) {
        frac_digits(s, i + 1, next_weight(w), sat_limit(acc + (s[i] - 48) * w))
    } else {
        (acc, i)
    }
}

/// Parses a fixed-point number at index `i`: an optional minus sign, integer
/// digits, and an optional fraction. `None` when no digit is present. On
/// success returns the value (in thousandths, saturated to the coordinate
/// range) and the index just past the number.
pub open spec fn parse_number(s: Seq<u8>, i: int) -> Option<(int, int)> {
    let neg = 0 <= i < s.len() && s[i] == 45;
    let j = if neg {
        i + 1
    } else {
        i
    };
    let (ival, k) = int_digits(s, j, 0);
    let (v, m) = if 0 <= k < s.len() && s[k] == 46 {
        frac_digits(s, k + 1, 100, sat_limit(ival * 1000))
    } else {
        (sat_limit(ival * 1000), k)
    };
    let frac_len = if 0 <= k < s.len() && s[k] == 46 {
        m - (k + 1)
    } else {
        0
    };
    if (k - j) + frac_len > 0 {
        Some(
            (
                if neg {
                    -v
                } else {
                    v
                },
                m,
            ),
        )
    } else {
        None
    }
}

pub proof fn lemma_int_digits_bounds(s: Seq<u8>, i: int, acc: int)
    requires
        0 <= i <= s.len(),
        0 <= acc <= COORD_LIMIT as int,
    ensures
        i <= int_digits(s, i, acc).1 <= s.len(),
        0 <= int_digits(s, i, acc).0 <= COORD_LIMIT as int,
    decreases s.len() - i,
{
    if 0 <= i < s.len() && is_digit(s[i]) {
        lemma_int_digits_bounds(s, i + 1, sat_limit(acc * 10 + (s[i] - 48)));
    }
}

pub proof fn lemma_frac_digits_bounds(s: Seq<u8>, i: int, w: int, acc: int)
    requires
        0 <= i <= s.len(),
        0 <= acc <= COORD_LIMIT as int,
        0 <= w <= 100,
    ensures
        i <= frac_digits(s, i, w, acc).1 <= s.len(),
        0 <= frac_digits(s, i, w, acc).0 <= COORD_LIMIT as int,
    decreases s.len() - i,
{
    if 0 <= i < s.len() && is_digit(s[i]) {
        lemma_frac_digits_bounds(s, i + 1, next_weight(w), sat_limit(acc + (s[i] - 48) * w));
    }
}

/// A successfully parsed number consumes at least one byte and stays within
/// the line; its value is within the coordinate range.
pub proof fn lemma_parse_number_bounds(s: Seq<u8>, i: int)
    requires
        0 <= i <= s.len(),
        parse_number(s, i) is Some,
    ensures
        i < parse_number(s, i).unwrap().1 <= s.len(),
        -(COORD_LIMIT as int) <= parse_number(s, i).unwrap().0 <= COORD_LIMIT as int,
{
    let neg = 0 <= i < s.len() && s[i] == 45;
    let j = if neg {
        i + 1
    } else {
        i
    };
    lemma_int_digits_bounds(s, j, 0);
    let (ival, k) = int_digits(s, j, 0);
    if 0 <= k < s.len() && s[k] == 46 {
        lemma_frac_digits_bounds(s, k + 1, 100, sat_limit(ival * 1000));
    }
}

/// Scans a line into words from index `i`. Whitespace between words is
/// skipped; a comment marker ends the scan; a letter must begin a valid
/// number. `None` means the line is malformed and contributes nothing.
pub open spec fn line_words(s: Seq<u8>, i: int) -> Option<Seq<Word>>
    decreases s.len() - i,
    via line_words_decreases
{
    if i < 0 || i >= s.len() || s[i] == 59 {
        Some(Seq::empty())
    } else if is_space(s[i]) {
        line_words(s, i + 1)
    } else if is_letter(s[i]) {
        match parse_number(s, i + 1) {
            None => None,
            Some((v, m)) => match line_words(s, m) {
                None => None,
                Some(ws) => Some(
                    seq![Word { letter: upper(s[i]), value: v as i64 }].add(ws),
                ),
            },
        }
    } else {
        None
    }
}

#[via_fn]
proof fn line_words_decreases(s: Seq<u8>, i: int) {
    if 0 <= i < s.len() && !is_space(s[i]) && s[i] != 59 && is_letter(s[i]) {
        if parse_number(s, i + 1) is Some {
            lemma_parse_number_bounds(s, i + 1);
        }
    }
}

/// Attaches an axis argument to a command; a repeated axis letter overwrites.
pub open spec fn set_arg(c: Command, w: Word) -> Command {
    if w.letter == 88 {  // X
        Command { args: AxisArgs { x: Some(w.value), ..c.args }, ..c }
    } else if w.letter == 89 {  // Y
        Command { args: AxisArgs { y: Some(w.value), ..c.args }, ..c }
    } else if w.letter == 90 {  // Z
        Command { args: AxisArgs { z: Some(w.value), ..c.args }, ..c }
    } else {  // E
        Command { args: AxisArgs { e: Some(w.value), ..c.args }, ..c }
    }
}

/// Letters that open a command of their own.
pub open spec fn is_command_letter(b: u8) -> bool {
    b == 71 || b == 77 || b == 84 || b == 79  // G M T O
}

/// Letters that attach an argument to the open command.
pub open spec fn is_axis_letter(b: u8) -> bool {
    b == 88 || b == 89 || b == 90 || b == 69  // X Y Z E
}

/// Groups a word sequence into commands, carrying the currently open command.
/// Words before any command letter, and words of other letters, are ignored.
pub open spec fn group_words(ws: Seq<Word>, i: int, cur: Option<Command>) -> Seq<Command>
    decreases ws.len() - i,
{
    if i < 0 || i >= ws.len() {
        match cur {
            None => Seq::empty(),
            Some(c) => seq![c],
        }
    } else {
        let w = ws[i];
        if is_command_letter(w.letter) {
            let opened = Some(Command { letter: w.letter, code: w.value, args: no_args() });
            match cur {
                None => group_words(ws, i + 1, opened),
                Some(c) => seq![c].add(group_words(ws, i + 1, opened)),
            }
        } else if is_axis_letter(w.letter) {
            match cur {
                None => group_words(ws, i + 1, None),
                Some(c) => group_words(ws, i + 1, Some(set_arg(c, w))),
            }
        } else {
            group_words(ws, i + 1, cur)
        }
    }
}

/// The commands one line contributes: none when it is blank, a comment, or
/// malformed; otherwise its words grouped into commands.
pub open spec fn line_commands(line: Seq<u8>) -> Seq<Command> {
    match line_words(line, 0) {
        None => Seq::empty(),
        Some(ws) => group_words(ws, 0, None),
    }
}

/// Index of the first line break at or after `i`, or the end of the text.
pub open spec fn line_end(t: Seq<u8>, i: int) -> int
    decreases t.len() - i,
{
    if 0 <= i < t.len() {
        if t[i] == 10 {
            i
        } else {
            line_end(t, i + 1)
        }
    } else {
        t.len() as int
    }
}

pub proof fn lemma_line_end_bounds(t: Seq<u8>, i: int)
    requires
        0 <= i <= t.len(),
    ensures
        i <= line_end(t, i) <= t.len(),
    decreases t.len() - i,
{
    if 0 <= i < t.len() && t[i] != 10 {
        lemma_line_end_bounds(t, i + 1);
    }
}

/// The lines of the text from index `i`, split on line breaks.
pub open spec fn split_lines(t: Seq<u8>, i: int) -> Seq<Seq<u8>>
    decreases t.len() + 1 - i,
    via split_lines_decreases
{
    if 0 <= i < t.len() {
        let j = line_end(t, i);
        seq![t.subrange(i, j)].add(split_lines(t, j + 1))
    } else {
        Seq::empty()
    }
}

#[via_fn]
proof fn split_lines_decreases(t: Seq<u8>, i: int) {
    if 0 <= i < t.len() {
        lemma_line_end_bounds(t, i);
    }
}

/// Parses the fixed-point number starting at `start`.
pub fn parse_number_exec(line: &Vec<u8>, start: usize) -> (r: Option<(i64, usize)>)
    requires
        start <= line@.len(),
    ensures
        match r {
            None => parse_number(line@, start as int) is None,
            Some(p) => {
                &&& parse_number(line@, start as int) == Some((p.0 as int, p.1 as int))
                &&& start < p.1 <= line@.len()
                &&& -COORD_LIMIT <= p.0 <= COORD_LIMIT
            },
        },
{
    let ghost s = line@;
    let mut i: usize = start;
    let mut neg: bool = false;
    if i < line.len() && line[i] == 45 {
        neg = true;
        i = i + 1;
    }
    let ghost j = i as int;
    let digits_start: usize = i;
    let mut acc: i64 = 0;
    while i < line.len() && 48 <= line[i] && line[i] <= 57
        invariant
            digits_start as int == j,
            j <= i <= s.len(),
            0 <= acc <= COORD_LIMIT,
            int_digits(s, j, 0) == int_digits(s, i as int, acc as int),
        decreases s.len() - i,
    {
        let d = line[i] - 48;
        let wide: i64 = acc * 10 + (d as i64);
        acc = if wide > COORD_LIMIT {
            COORD_LIMIT
        } else {
            wide
        };
        i = i + 1;
    }
    assert(int_digits(s, j, 0) == (acc as int, i as int));
    let int_len: usize = i - digits_start;
    let ghost k = i as int;
    let mut frac_len: usize = 0;
    // integer part scaled to thousandths, saturated
    let scaled: i64 = if acc > 1_000_000_000_000 {
        COORD_LIMIT
    } else {
        acc * 1000
    };
    assert(scaled as int == sat_limit(acc as int * 1000));
    let mut v: i64 = scaled;
    if i < line.len() && line[i] == 46 {
        i = i + 1;
        let frac_start: usize = i;
        let ghost f = i as int;
        let mut w: i64 = 100;
        while i < line.len() && 48 <= line[i] && line[i] <= 57
            invariant
                frac_start as int == f,
                f <= i <= s.len(),
                0 <= v <= COORD_LIMIT,
                w == 100 || w == 10 || w == 1 || w == 0,
                frac_digits(s, f, 100, sat_limit(acc as int * 1000)) == frac_digits(
                    s,
                    i as int,
                    w as int,
                    v as int,
                ),
            decreases s.len() - i,
        {
            let d = line[i] - 48;
            let contribution: i64 = if w == 100 {
                (d as i64) * 100
            } else if w == 10 {
                (d as i64) * 10
            } else if w == 1 {
                d as i64
            } else {
                0
            };
            assert(contribution as int == (line@[i as int] - 48) * w) by {
                let dd = line@[i as int] - 48;
                if w == 100 {
                    assert(dd * 100 == dd * (100 as int)) by (nonlinear_arith);
                } else if w == 10 {
                    assert(dd * 10 == dd * (10 as int)) by (nonlinear_arith);
                } else if w == 1 {
                    assert(dd * 1 == dd) by (nonlinear_arith);
                } else {
                    assert(dd * 0 == 0) by (nonlinear_arith);
                }
            }
            let wide: i64 = v + contribution;
            v = if wide > COORD_LIMIT {
                COORD_LIMIT
            } else {
                wide
            };
            w = if w == 100 {
                10
            } else if w == 10 {
                1
            } else {
                0
            };
            i = i + 1;
        }
        assert(frac_digits(s, f, 100, sat_limit(acc as int * 1000)) == (v as int, i as int));
        frac_len = i - frac_start;
    }
    if int_len + frac_len == 0 {
        return None;
    }
    let value: i64 = if neg {
        -v
    } else {
        v
    };
    Some((value, i))
}

/// Scans one line into words; `None` when the line is malformed.
pub fn scan_words(line: &Vec<u8>) -> (r: Option<Vec<Word>>)
    ensures
        match r {
            None => line_words(line@, 0) is None,
            Some(ws) => line_words(line@, 0) == Some(ws@),
        },
{
    let ghost s = line@;
    let mut words: Vec<Word> = Vec::new();
    let mut i: usize = 0;
    loop
        invariant
            i <= s.len(),
            match line_words(s, i as int) {
                None => line_words(s, 0) is None,
                Some(rest) => line_words(s, 0) == Some(words@.add(rest)),
            },
        decreases s.len() - i,
    {
        if i >= line.len() || line[i] == 59 {
            assert(line_words(s, i as int) == Some(Seq::<Word>::empty()));
            assert(words@.add(Seq::empty()) =~= words@);
            return Some(words);
        }
        let b = line[i];
        if b == 32 || b == 9 || b == 13 {
            i = i + 1;
        } else if (65 <= b && b <= 90) || (97 <= b && b <= 122) {
            match parse_number_exec(line, i + 1) {
                None => {
                    return None;
                },
                Some((v, m)) => {
                    let up = if 97 <= b && b <= 122 {
                        b - 32
                    } else {
                        b
                    };
                    let w = Word { letter: up, value: v };
                    proof {
                        let rest_i = line_words(s, i as int);
                        let rest_m = line_words(s, m as int);
                        if rest_m is Some {
                            assert(rest_i == Some(seq![w].add(rest_m.unwrap())));
                            assert(words@.add(seq![w].add(rest_m.unwrap())) =~= words@.push(w).add(
                                rest_m.unwrap(),
                            ));
                        }
                    }
                    words.push(w);
                    i = m;
                },
            }
        } else {
            return None;
        }
    }
}

/// Groups scanned words into commands.
pub fn group_words_exec(ws: &Vec<Word>) -> (cmds: Vec<Command>)
    ensures
        cmds@ == group_words(ws@, 0, None),
{
    let mut cmds: Vec<Command> = Vec::new();
    let mut cur: Option<Command> = None;
    let mut i: usize = 0;
    while i < ws.len()
        invariant
            i <= ws@.len(),
            group_words(ws@, 0, None) == cmds@.add(group_words(ws@, i as int, cur)),
        decreases ws@.len() - i,
    {
        let w = ws[i];
        let letter = w.letter;
        if letter == 71 || letter == 77 || letter == 84 || letter == 79 {
            let opened = Command {
                letter,
                code: w.value,
                args: AxisArgs { x: None, y: None, z: None, e: None },
            };
            proof {
                if cur is Some {
                    assert(cmds@.add(
                        seq![cur.unwrap()].add(group_words(ws@, i as int + 1, Some(opened))),
                    ) =~= cmds@.push(cur.unwrap()).add(group_words(ws@, i as int + 1, Some(opened))));
                }
            }
            match cur {
                None => {},
                Some(c) => {
                    cmds.push(c);
                },
            }
            cur = Some(opened);
        } else if letter == 88 || letter == 89 || letter == 90 || letter == 69 {
            match cur {
                None => {},
                Some(c) => {
                    let updated = if letter == 88 {
                        Command { args: AxisArgs { x: Some(w.value), ..c.args }, ..c }
                    } else if letter == 89 {
                        Command { args: AxisArgs { y: Some(w.value), ..c.args }, ..c }
                    } else if letter == 90 {
                        Command { args: AxisArgs { z: Some(w.value), ..c.args }, ..c }
                    } else {
                        Command { args: AxisArgs { e: Some(w.value), ..c.args }, ..c }
                    };
                    assert(updated == set_arg(c, w));
                    cur = Some(updated);
                },
            }
        } else {
            // ignored word (feed rates, line numbers, and the like)
        }
        i = i + 1;
    }
    proof {
        if cur is Some {
            assert(group_words(ws@, i as int, cur) =~= seq![cur.unwrap()]);
            assert(cmds@.add(seq![cur.unwrap()]) =~= cmds@.push(cur.unwrap()));
        } else {
            assert(cmds@.add(Seq::empty()) =~= cmds@);
        }
    }
    match cur {
        None => {},
        Some(c) => {
            cmds.push(c);
        },
    }
    cmds
}

/// The commands one line contributes.
pub fn line_commands_exec(line: &Vec<u8>) -> (cmds: Vec<Command>)
    ensures
        cmds@ == line_commands(line@),
{
    match scan_words(line) {
        None => Vec::new(),
        Some(ws) => group_words_exec(&ws),
    }
}

} // verus!
