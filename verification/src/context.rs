//! The line-context error report: when deserialization fails at a known line
//! of the rendered document, the report shows the window of five lines on
//! each side, clamped to the document, with the offending line highlighted.

use vstd::prelude::*;

use crate::text::{find_char_idx, lemma_find_char_idx, strs_view};

verus! {

/// The lines of a document: the text split on `'\n'`, a trailing newline
/// adding no empty line.
pub open spec fn doc_lines(s: Seq<char>) -> Seq<Seq<char>>
    decreases s.len(),
    via doc_lines_decreases
{
    if s.len() == 0 {
        Seq::empty()
    } else {
        let j = find_char_idx(s, '\n');
        if j == -1 {
            seq![s]
        } else {
            seq![s.take(j)] + doc_lines(s.skip(j + 1))
        }
    }
}

#[via_fn]
proof fn doc_lines_decreases(s: Seq<char>) {
    lemma_find_char_idx(s, '\n');
}

/// Splits a document into its lines, per `doc_lines`.
pub fn split_lines(s: &str) -> (r: Vec<String>)
    ensures
        strs_view(r@) == doc_lines(s@),
{
    let n = s.unicode_len();
    let mut out: Vec<String> = Vec::new();
    let mut pos: usize = 0;
    proof {
        assert(s@.skip(0) =~= s@);
        assert(strs_view(out@) + doc_lines(s@) =~= doc_lines(s@));
    }
    while pos < n
        invariant
            pos <= n,
            n == s@.len(),
            strs_view(out@) + doc_lines(s@.skip(pos as int)) == doc_lines(s@),
        decreases n - pos,
    {
        let ghost rest = s@.skip(pos as int);
        proof {
            lemma_find_char_idx(rest, '\n');
            assert(forall|k: int| 0 <= k < rest.len() ==> #[trigger] rest[k] == s@[pos + k]);
        }
        match crate::text::find_char_from(s, '\n', pos) {
            Some(j) => {
                proof {
                    let f = find_char_idx(rest, '\n');
                    assert(rest[j - pos] == '\n');
                    assert(f != -1) by {
                        if f == -1 {
                            assert(rest[j - pos] != '\n');
                        }
                    }
                    assert(f == j - pos) by {
                        if f < j - pos {
                            assert(s@[pos + f] != '\n');
                            assert(rest[f] == '\n');
                        }
                        if f > j - pos {
                            assert(rest[j - pos] != '\n');
                        }
                    }
                    assert(rest.take(j - pos) =~= s@.subrange(pos as int, j as int));
                    assert(rest.skip(j - pos + 1) =~= s@.skip(j + 1));
                }
                let piece = String::from_str(s.substring_char(pos, j));
                out.push(piece);
                proof {
                    assert(strs_view(out@) =~= strs_view(out@.drop_last()).push(
                        out@.last()@,
                    ));
                    assert(strs_view(out@) + doc_lines(s@.skip(j + 1)) =~= doc_lines(s@));
                }
                pos = j + 1;
            },
            None => {
                proof {
                    let f = find_char_idx(rest, '\n');
                    assert(f == -1) by {
                        if f != -1 {
                            assert(rest[f] == s@[pos + f]);
                        }
                    }
                    assert(doc_lines(rest) == seq![rest]);
                }
                let piece = String::from_str(s.substring_char(pos, n));
                proof {
                    assert(piece@ =~= rest);
                }
                out.push(piece);
                proof {
                    assert(strs_view(out@) =~= strs_view(out@.drop_last()).push(
                        out@.last()@,
                    ));
                    assert(strs_view(out@) + doc_lines(s@.skip(n as int)) =~= doc_lines(s@));
                }
                pos = n;
            },
        }
    }
    proof {
        assert(s@.skip(n as int) =~= Seq::<char>::empty());
        assert(strs_view(out@) + Seq::<Seq<char>>::empty() =~= strs_view(out@));
    }
    out
}

/// The decimal digits of `n`, most significant first.
pub open spec fn dec_str(n: int) -> Seq<char>
    decreases n,
{
    if n <= 0 {
        seq!['0']
    } else if n < 10 {
        seq![dec_digit(n)]
    } else {
        dec_str(n / 10).push(dec_digit(n % 10))
    }
}

/// The digit character of a value below ten.
pub open spec fn dec_digit(d: int) -> char {
    if d == 0 {
        '0'
    } else if d == 1 {
        '1'
    } else if d == 2 {
        '2'
    } else if d == 3 {
        '3'
    } else if d == 4 {
        '4'
    } else if d == 5 {
        '5'
    } else if d == 6 {
        '6'
    } else if d == 7 {
        '7'
    } else if d == 8 {
        '8'
    } else {
        '9'
    }
}

fn dec_digit_str(d: usize) -> (r: &'static str)
    requires
        d < 10,
    ensures
        r@ =~= seq![dec_digit(d as int)],
{
    proof {
        reveal_strlit("0");
        reveal_strlit("1");
        reveal_strlit("2");
        reveal_strlit("3");
        reveal_strlit("4");
        reveal_strlit("5");
        reveal_strlit("6");
        reveal_strlit("7");
        reveal_strlit("8");
        reveal_strlit("9");
    }
    match d {
        0 => "0",
        1 => "1",
        2 => "2",
        3 => "3",
        4 => "4",
        5 => "5",
        6 => "6",
        7 => "7",
        8 => "8",
        _ => "9",
    }
}

/// Renders `n` in decimal, per `dec_str`.
pub fn format_usize(n: usize) -> (r: String)
    ensures
        r@ == dec_str(n as int),
    decreases n,
{
    if n < 10 {
        String::from_str(dec_digit_str(n))
    } else {
        let mut prefix = format_usize(n / 10);
        prefix.append(dec_digit_str(n % 10));
        proof {
            assert(prefix@ =~= dec_str((n / 10) as int).push(dec_digit((n % 10) as int)));
        }
        prefix
    }
}

/// `s` padded on the left with spaces to at least three characters.
pub open spec fn pad3(s: Seq<char>) -> Seq<char> {
    if s.len() >= 3 {
        s
    } else if s.len() == 2 {
        seq![' '] + s
    } else if s.len() == 1 {
        seq![' ', ' '] + s
    } else {
        seq![' ', ' ', ' ']
    }
}

fn pad3_exec(s: String) -> (r: String)
    ensures
        r@ == pad3(s@),
{
    let n = s.unicode_len();
    proof {
        reveal_strlit(" ");
        reveal_strlit("  ");
        reveal_strlit("   ");
    }
    if n >= 3 {
        s
    } else if n == 2 {
        let mut r = String::from_str(" ");
        r.append(s.as_str());
        proof {
            assert(r@ =~= pad3(s@));
        }
        r
    } else if n == 1 {
        let mut r = String::from_str("  ");
        r.append(s.as_str());
        proof {
            assert(r@ =~= pad3(s@));
        }
        r
    } else {
        let r = String::from_str("   ");
        proof {
            assert(r@ =~= pad3(s@));
        }
        r
    }
}

/// The first line number of the context window around `err_line`: five lines
/// up, clamped to the first line.
pub open spec fn win_start(err_line: int) -> int {
    if err_line > 6 {
        err_line - 5
    } else {
        1
    }
}

/// The last line number of the window: five lines down, clamped to the last
/// line of the document.
pub open spec fn win_end(err_line: int, total: int) -> int {
    if err_line + 5 <= total {
        err_line + 5
    } else {
        total
    }
}

/// One rendered line of the report: the highlight openings and closings
/// around the offending line, the right-aligned line number, and the line's
/// text.
pub open spec fn report_line(lines: Seq<Seq<char>>, num: int, err_line: int) -> Seq<char> {
    let open = if num == err_line {
        "\u{1b}[31;1m"@
    } else {
        Seq::<char>::empty()
    };
    let close = if num == err_line {
        "\u{1b}[0m"@
    } else {
        Seq::<char>::empty()
    };
    open + pad3(dec_str(num)) + ": "@ + lines[num - 1] + close + "\n"@
}

/// The rendered window lines from `num` to `win_end(err_line, lines.len())`.
pub open spec fn report_lines(lines: Seq<Seq<char>>, num: int, err_line: int) -> Seq<char>
    decreases win_end(err_line, lines.len() as int) + 1 - num,
{
    if num > win_end(err_line, lines.len() as int) || num < 1 {
        Seq::empty()
    } else {
        report_line(lines, num, err_line) + report_lines(lines, num + 1, err_line)
    }
}

/// The whole report: the deserializer's message, a hint naming the
/// diagnostics toggle, then the window with the offending line highlighted.
pub open spec fn context_report(err: Seq<char>, lines: Seq<Seq<char>>, err_line: int) -> Seq<
    char,
> {
    err + "\nRelevant part of the config (set DEBUG_CONFIG=1 to print full config):\n"@
        + report_lines(lines, win_start(err_line), err_line)
}

/// Renders the context report for a failure at line `err_line` (1-based) of
/// the document whose lines are `lines`.
pub fn render_context_report(err: &str, lines: &Vec<String>, err_line: usize) -> (r: String)
    requires
        1 <= err_line <= lines@.len(),
        lines@.len() <= usize::MAX - 5,
    ensures
        r@ == context_report(err@, strs_view(lines@), err_line as int),
{
    let total = lines.len();
    let mut out = String::from_str(err);
    out.append("\nRelevant part of the config (set DEBUG_CONFIG=1 to print full config):\n");
    let start: usize = if err_line > 6 {
        err_line - 5
    } else {
        1
    };
    let end: usize = if total - err_line >= 5 {
        err_line + 5
    } else {
        total
    };
    let ghost lv = strs_view(lines@);
    proof {
        assert(start == win_start(err_line as int));
        assert(end == win_end(err_line as int, lv.len() as int));
        assert(out@ == err@
            + "\nRelevant part of the config (set DEBUG_CONFIG=1 to print full config):\n"@);
    }
    let mut num: usize = start;
    while num <= end
        invariant
            win_start(err_line as int) <= num <= end + 1,
            end == win_end(err_line as int, lv.len() as int),
            1 <= err_line <= lines@.len(),
            lv == strs_view(lines@),
            end <= lines@.len(),
            lines@.len() <= usize::MAX - 5,
            out@ + report_lines(lv, num as int, err_line as int) == context_report(
                err@,
                lv,
                err_line as int,
            ),
        decreases end + 1 - num,
    {
        let ghost prev = out@;
        if num == err_line {
            out.append("\u{1b}[31;1m");
        }
        let shown = pad3_exec(format_usize(num));
        out.append(shown.as_str());
        out.append(": ");
        out.append(lines[num - 1].as_str());
        if num == err_line {
            out.append("\u{1b}[0m");
        }
        out.append("\n");
        proof {
            assert(lv[num - 1] == lines@[num - 1]@);
            assert(out@ =~= prev + report_line(lv, num as int, err_line as int));
            assert(report_lines(lv, num as int, err_line as int) == report_line(
                lv,
                num as int,
                err_line as int,
            ) + report_lines(lv, num as int + 1, err_line as int));
            assert(out@ + report_lines(lv, num as int + 1, err_line as int) =~= prev
                + report_lines(lv, num as int, err_line as int));
        }
        num += 1;
    }
    proof {
        assert(report_lines(lv, num as int, err_line as int) == Seq::<char>::empty());
        assert(out@ + Seq::<char>::empty() =~= out@);
    }
    out
}

} // verus!
