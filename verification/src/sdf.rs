//! The grammar of streamlet definition files: names, comments and doc
//! strings, logical stream types, interfaces and streamlets.
//!
//! Each rule is a spec function over the text and a position, giving what
//! the rule reads there and the position after it; each parser has a
//! contract that ties its result to its rule.

use vstd::prelude::*;
use crate::design::{
    has_duplicate_interface, interface_models, is_reserved_name, InterfaceModel, Interface, Mode, Streamlet,
    StreamletModel,
};
use crate::logical::{
    fields_model, has_duplicate_name, lemma_fields_model_push, LogicalModel, LogicalStreamModel,
    LogicalStreamType, Direction, PositiveReal, Stream, Synchronicity,
};
use crate::phys::Complexity;
use crate::name::{is_valid_name, Name};
use crate::scan::{
    digits_value, float_end, has_tag, is_positive_float, run_end, usize_at, w_tag, ws_end,
    CharClass, ParseError,
};
use crate::phys::opt_view;
use crate::scan::{at_tag, scan_float, scan_number, scan_run, scan_w_tag};
use crate::text::{chars_of, is_digit, push_char, string_of};
use vstd::string::StrSliceExecFns;

verus! {

// ---------------------------------------------------------------------
// Names and comments.

/// A name: the run of letters, digits and underscores at `i`, if it obeys
/// the naming rules.
pub open spec fn p_name(s: Seq<char>, i: int) -> Option<(Seq<char>, int)> {
    let j = run_end(s, i, CharClass::Word);
    if is_valid_name(s.subrange(i, j)) { Some((s.subrange(i, j), j)) } else { None }
}

/// What the name rule reads is a valid name, and it reads the whole run of
/// name characters: the character after it, if any, is not one.
pub proof fn lemma_parsed_name_valid(s: Seq<char>, i: int)
    requires
        0 <= i <= s.len(),
        p_name(s, i) is Some,
    ensures
        is_valid_name(p_name(s, i).unwrap().0),
        i < p_name(s, i).unwrap().1 <= s.len(),
        p_name(s, i).unwrap().1 < s.len() ==> !crate::scan::in_class(s[p_name(s, i).unwrap().1], CharClass::Word),
{
    crate::scan::lemma_run_end(s, i, CharClass::Word);
}

/// The first position from `i` on where `t` stands.
pub open spec fn find_tag(s: Seq<char>, i: int, t: Seq<char>) -> Option<int>
    decreases s.len() - i,
{
    if i < 0 || i + t.len() > s.len() {
        None
    } else if has_tag(s, i, t) {
        Some(i)
    } else if i < s.len() {
        find_tag(s, i + 1, t)
    } else {
        None
    }
}

/// The end of the line that `i` is on: the next line feed, or the end.
pub open spec fn line_end(s: Seq<char>, i: int) -> int {
    run_end(s, i, CharClass::NotNewline)
}

/// A delimited comment: from `/*` to the first `*/`.
pub open spec fn p_comment_delimited(s: Seq<char>, i: int) -> Option<int> {
    if has_tag(s, i, "/*"@) {
        match find_tag(s, i + 2, "*/"@) {
            Some(k) => Some(k + 2),
            None => None,
        }
    } else {
        None
    }
}

/// A line comment that is no doc comment: `//`, not followed by a third
/// `/`, up to the end of its line or of the text.
pub open spec fn p_comment_line(s: Seq<char>, i: int) -> Option<int> {
    if has_tag(s, i, "//"@) && (i + 2 >= s.len() || s[i + 2] != '/') {
        Some(line_end(s, i + 2))
    } else {
        None
    }
}

/// A doc comment: `///` and the rest of the line, which is its text.
pub open spec fn p_comment_doc(s: Seq<char>, i: int) -> Option<(Seq<char>, int)> {
    if has_tag(s, i, "///"@) {
        Some((s.subrange(i + 3, line_end(s, i + 3)), line_end(s, i + 3)))
    } else {
        None
    }
}

/// A comment: a doc comment gives its text, the others give nothing.
pub open spec fn p_comment(s: Seq<char>, i: int) -> Option<(Seq<char>, int)> {
    match p_comment_doc(s, i) {
        Some(r) => Some(r),
        None => match p_comment_line(s, i) {
            Some(j) => Some((Seq::empty(), j)),
            None => match p_comment_delimited(s, i) {
                Some(j) => Some((Seq::empty(), j)),
                None => None,
            },
        },
    }
}

/// Comments, each followed by optional whitespace, for as long as there
/// are any: their texts and the position after them.
pub open spec fn p_doc_block(s: Seq<char>, i: int) -> (Seq<Seq<char>>, int)
    decreases s.len() - i,
{
    match p_comment(s, i) {
        Some((t, j)) => {
            let k = ws_end(s, j);
            if i < k <= s.len() {
                let (rest, e) = p_doc_block(s, k);
                (seq![t] + rest, e)
            } else {
                (seq![t], k)
            }
        },
        None => (Seq::empty(), i),
    }
}

/// The texts that are not empty.
pub open spec fn doc_lines(v: Seq<Seq<char>>) -> Seq<Seq<char>>
    decreases v.len(),
{
    if v.len() == 0 {
        Seq::empty()
    } else if v.last().len() > 0 {
        doc_lines(v.drop_last()).push(v.last())
    } else {
        doc_lines(v.drop_last())
    }
}

/// The texts kept are not empty.
proof fn lemma_doc_lines_nonempty(v: Seq<Seq<char>>)
    ensures
        forall|k: int| 0 <= k < doc_lines(v).len() ==> (#[trigger] doc_lines(v)[k]).len() > 0,
    decreases v.len(),
{
    if v.len() > 0 {
        lemma_doc_lines_nonempty(v.drop_last());
        let prev = doc_lines(v.drop_last());
        if v.last().len() > 0 {
            assert forall|k: int| 0 <= k < doc_lines(v).len() implies (#[trigger] doc_lines(v)[k]).len() > 0 by {
                if k < prev.len() {
                    assert(doc_lines(v)[k] == prev[k]);
                }
            }
        }
    }
}

/// Texts joined with a line feed between each two.
pub open spec fn join_lines(v: Seq<Seq<char>>) -> Seq<char>
    decreases v.len(),
{
    if v.len() == 0 {
        Seq::empty()
    } else if v.len() == 1 {
        v[0]
    } else {
        join_lines(v.drop_last()) + seq!['\n'] + v.last()
    }
}

/// The doc string of comment texts: the texts that are not empty, one per
/// line; none when there is none.
pub open spec fn doc_of(v: Seq<Seq<char>>) -> Option<Seq<char>> {
    let t = join_lines(doc_lines(v));
    if t.len() == 0 { None } else { Some(t) }
}

/// `true` or `false`.
pub open spec fn p_bool(s: Seq<char>, i: int) -> Option<(bool, int)> {
    if has_tag(s, i, "true"@) {
        Some((true, i + 4))
    } else if has_tag(s, i, "false"@) {
        Some((false, i + 5))
    } else {
        None
    }
}

// ---------------------------------------------------------------------
// Stream options.

/// Levels separated by dots, each dot followed by optional whitespace.
pub open spec fn p_levels(s: Seq<char>, i: int, acc: Seq<usize>) -> (Seq<usize>, int)
    decreases s.len() - i,
{
    match w_tag(s, i, "."@) {
        None => (acc, i),
        Some(j) => match usize_at(s, j) {
            None => (acc, i),
            Some((v, k)) => if i < k <= s.len() {
                p_levels(s, k, acc.push(v as usize))
            } else {
                (acc, i)
            },
        },
    }
}

/// A complexity: one or more levels separated by dots.
pub open spec fn p_complexity(s: Seq<char>, i: int) -> Option<(Seq<usize>, int)> {
    match usize_at(s, i) {
        None => None,
        Some((v, j)) => Some(p_levels(s, j, seq![v as usize])),
    }
}

/// `Sync`, `Flatten`, `Desync` or `FlatDesync`, tried in that order.
pub open spec fn p_synchronicity(s: Seq<char>, i: int) -> Option<(Synchronicity, int)> {
    if has_tag(s, i, "Sync"@) {
        Some((Synchronicity::Sync, i + 4))
    } else if has_tag(s, i, "Flatten"@) {
        Some((Synchronicity::Flatten, i + 7))
    } else if has_tag(s, i, "Desync"@) {
        Some((Synchronicity::Desync, i + 6))
    } else if has_tag(s, i, "FlatDesync"@) {
        Some((Synchronicity::FlatDesync, i + 10))
    } else {
        None
    }
}

/// `Forward` or `Reverse`.
pub open spec fn p_direction(s: Seq<char>, i: int) -> Option<(Direction, int)> {
    if has_tag(s, i, "Forward"@) {
        Some((Direction::Forward, i + 7))
    } else if has_tag(s, i, "Reverse"@) {
        Some((Direction::Reverse, i + 7))
    } else {
        None
    }
}

/// `in` or `out`.
pub open spec fn p_mode(s: Seq<char>, i: int) -> Option<(Mode, int)> {
    if has_tag(s, i, "in"@) {
        Some((Mode::In, i + 2))
    } else if has_tag(s, i, "out"@) {
        Some((Mode::Out, i + 3))
    } else {
        None
    }
}

/// The keys of stream options.
pub open spec fn is_option_key(c: char) -> bool {
    c == 't' || c == 'd' || c == 's' || c == 'c' || c == 'r' || c == 'u' || c == 'x'
}

/// The number that a text of decimal digits, with an optional plus sign,
/// denotes, when it fits in a `usize`.
pub open spec fn usize_text(t: Seq<char>) -> Option<nat> {
    let d = unsigned_digits(t);
    if d.len() > 0 && all_digits(d) && digits_value(d) <= usize::MAX {
        Some(digits_value(d))
    } else {
        None
    }
}

/// A text without its leading plus sign, if any.
pub open spec fn unsigned_digits(t: Seq<char>) -> Seq<char> {
    if t.len() > 0 && t[0] == '+' { t.skip(1) } else { t }
}

/// Whether a text holds only decimal digits.
pub open spec fn all_digits(d: Seq<char>) -> bool {
    forall|k: int| 0 <= k < d.len() ==> is_digit(#[trigger] d[k])
}

/// The option entry for a key that was given last: the bounds of its text.
pub open spec fn last_option(opts: Seq<(char, int, int)>, key: char) -> Option<(int, int)>
    decreases opts.len(),
{
    if opts.len() == 0 {
        None
    } else if opts.last().0 == key {
        Some((opts.last().1, opts.last().2))
    } else {
        last_option(opts.drop_last(), key)
    }
}

// ---------------------------------------------------------------------
// Logical stream types.

/// `Null`.
pub open spec fn p_null(s: Seq<char>, i: int) -> Option<(LogicalModel, int)> {
    if has_tag(s, i, "Null"@) { Some((LogicalModel::Null, i + 4)) } else { None }
}

/// `Bits<` and a positive number of bits, then `>`, whitespace allowed
/// after `<` and before `>`.
pub open spec fn p_bits(s: Seq<char>, i: int) -> Option<(LogicalModel, int)> {
    match w_tag(s, i, "Bits<"@) {
        None => None,
        Some(i1) => match usize_at(s, i1) {
            None => None,
            Some((n, i2)) => {
                let i3 = ws_end(s, i2);
                if has_tag(s, i3, ">"@) && n > 0 { Some((LogicalModel::Bits(n), i3 + 1)) } else { None }
            },
        },
    }
}

/// A logical stream type: null, bits, a group, a union or a stream, tried
/// in that order.
pub open spec fn p_lst(s: Seq<char>, i: int) -> Option<(LogicalModel, int)>
    decreases s.len() - i, 6int,
{
    match p_null(s, i) {
        Some(r) => Some(r),
        None => match p_bits(s, i) {
            Some(r) => Some(r),
            None => match p_group_or_union(s, i, true) {
                Some(r) => Some(r),
                None => match p_group_or_union(s, i, false) {
                    Some(r) => Some(r),
                    None => p_stream(s, i),
                },
            },
        },
    }
}

/// A field: a name, `:` and a type, each followed by optional whitespace.
pub open spec fn p_field(s: Seq<char>, i: int) -> Option<((Seq<char>, LogicalModel), int)>
    decreases s.len() - i, 2int,
{
    match p_name(s, i) {
        None => None,
        Some((n, j)) => match w_tag(s, ws_end(s, j), ":"@) {
            None => None,
            Some(k) => if i < k <= s.len() {
                match p_lst(s, k) {
                    None => None,
                    Some((t, e)) => Some(((n, t), ws_end(s, e))),
                }
            } else {
                None
            },
        },
    }
}

/// More fields, each after a comma and optional whitespace, for as long as
/// there are any.
pub open spec fn p_fields_more(s: Seq<char>, i: int, acc: Seq<(Seq<char>, LogicalModel)>)
    -> Option<(Seq<(Seq<char>, LogicalModel)>, int)>
    decreases s.len() - i, 3int,
{
    match w_tag(s, i, ","@) {
        None => Some((acc, i)),
        Some(j) => if i < j <= s.len() {
            match p_field(s, j) {
                None => Some((acc, i)),
                Some((f, k)) => if j < k <= s.len() { p_fields_more(s, k, acc.push(f)) } else { None },
            }
        } else {
            None
        },
    }
}

/// Fields separated by commas; none at all when the first is missing.
pub open spec fn p_fields(s: Seq<char>, i: int) -> Option<(Seq<(Seq<char>, LogicalModel)>, int)>
    decreases s.len() - i, 4int,
{
    match p_field(s, i) {
        None => Some((Seq::empty(), i)),
        Some((f, j)) => if i < j <= s.len() { p_fields_more(s, j, seq![f]) } else { None },
    }
}

/// `Group<` or `Union<`, fields, then `>`; the names of the fields may not
/// repeat.
pub open spec fn p_group_or_union(s: Seq<char>, i: int, group: bool) -> Option<(LogicalModel, int)>
    decreases s.len() - i, 5int,
{
    match w_tag(s, i, if group { "Group<"@ } else { "Union<"@ }) {
        None => None,
        Some(i1) => if i < i1 <= s.len() {
            match p_fields(s, i1) {
                None => None,
                Some((f, i2)) => {
                    let i3 = ws_end(s, i2);
                    if has_tag(s, i3, ">"@) && !has_duplicate_name(f) {
                        Some((if group { LogicalModel::Group(f) } else { LogicalModel::Union(f) }, i3 + 1))
                    } else {
                        None
                    }
                },
            }
        } else {
            None
        },
    }
}

/// The end of the text of an option's value: a decimal literal, digits, a
/// synchronicity, a complexity, a direction, a type or a boolean, tried in
/// that order.
pub open spec fn p_value_end(s: Seq<char>, i: int) -> Option<int>
    decreases s.len() - i, 7int,
{
    match float_end(s, i) {
        Some(j) => Some(j),
        None => if run_end(s, i, CharClass::Digit) > i {
            Some(run_end(s, i, CharClass::Digit))
        } else {
            match p_synchronicity(s, i) {
                Some((_, j)) => Some(j),
                None => match p_complexity(s, i) {
                    Some((_, j)) => Some(j),
                    None => match p_direction(s, i) {
                        Some((_, j)) => Some(j),
                        None => match p_lst(s, i) {
                            Some((_, j)) => Some(j),
                            None => match p_bool(s, i) {
                                Some((_, j)) => Some(j),
                                None => None,
                            },
                        },
                    },
                },
            }
        },
    }
}

/// An option: a key, `=` and a value, each followed by optional
/// whitespace: the key, the bounds of the value's text, and the end.
pub open spec fn p_option(s: Seq<char>, i: int) -> Option<((char, int, int), int)>
    decreases s.len() - i, 2int,
{
    if 0 <= i < s.len() && is_option_key(s[i]) {
        match w_tag(s, ws_end(s, i + 1), "="@) {
            None => None,
            Some(k) => if i < k <= s.len() {
                match p_value_end(s, k) {
                    None => None,
                    Some(e) => Some(((s[i], k, e), ws_end(s, e))),
                }
            } else {
                None
            },
        }
    } else {
        None
    }
}

/// More options, each after a comma and optional whitespace.
pub open spec fn p_options_more(s: Seq<char>, i: int, acc: Seq<(char, int, int)>) -> Option<(Seq<(char, int, int)>, int)>
    decreases s.len() - i, 3int,
{
    match w_tag(s, i, ","@) {
        None => Some((acc, i)),
        Some(j) => if i < j <= s.len() {
            match p_option(s, j) {
                None => Some((acc, i)),
                Some((o, k)) => if j < k <= s.len() { p_options_more(s, k, acc.push(o)) } else { None },
            }
        } else {
            None
        },
    }
}

/// Options separated by commas; none at all when the first is missing.
pub open spec fn p_options(s: Seq<char>, i: int) -> Option<(Seq<(char, int, int)>, int)>
    decreases s.len() - i, 4int,
{
    match p_option(s, i) {
        None => Some((Seq::empty(), i)),
        Some((o, j)) => if i < j <= s.len() { p_options_more(s, j, seq![o]) } else { None },
    }
}

/// The text of the option given last for a key, if it lies after `i`.
pub open spec fn option_text(s: Seq<char>, i: int, opts: Seq<(char, int, int)>, key: char) -> Option<Seq<char>> {
    match last_option(opts, key) {
        Some((a, b)) => if 0 <= i < a <= b <= s.len() { Some(s.subrange(a, b)) } else { None },
        None => None,
    }
}

/// The stream node that a data type and options make: the throughput is
/// the `t` text where that is a decimal literal and 1 otherwise, and must
/// be positive; `d` is a number, 0 by default; `s`, `c`, `r` and `x` are
/// read from the start of their texts, with `Sync`, level 0, `Forward` and
/// `false` by default; `u` is a type, or none.
pub open spec fn stream_of(
    s: Seq<char>,
    i: int,
    data: LogicalModel,
    opts: Seq<(char, int, int)>,
) -> Option<LogicalModel>
    decreases s.len() - i, 1int,
{
    let t = match option_text(s, i, opts, 't') {
        Some(t) => if float_end(t, 0) == Some(t.len() as int) { t } else { "1"@ },
        None => "1"@,
    };
    let d = match option_text(s, i, opts, 'd') {
        Some(x) => match usize_text(x) {
            Some(v) => v,
            None => 0,
        },
        None => 0,
    };
    let sy = match option_text(s, i, opts, 's') {
        Some(x) => match p_synchronicity(x, 0) {
            Some((v, _)) => v,
            None => Synchronicity::Sync,
        },
        None => Synchronicity::Sync,
    };
    let c = match option_text(s, i, opts, 'c') {
        Some(x) => match p_complexity(x, 0) {
            Some((v, _)) => v,
            None => seq![0usize],
        },
        None => seq![0usize],
    };
    let r = match option_text(s, i, opts, 'r') {
        Some(x) => match p_direction(x, 0) {
            Some((v, _)) => v,
            None => Direction::Forward,
        },
        None => Direction::Forward,
    };
    let u = match last_option(opts, 'u') {
        Some((a, b)) => if 0 <= i < a <= b <= s.len() {
            match p_lst(s.subrange(a, b), 0) {
                Some((v, _)) => Some(v),
                None => None,
            }
        } else {
            None
        },
        None => None,
    };
    let x = match option_text(s, i, opts, 'x') {
        Some(x) => match p_bool(x, 0) {
            Some((v, _)) => v,
            None => false,
        },
        None => false,
    };
    if is_positive_float(t) {
        Some(LogicalModel::Stream(Box::new(LogicalStreamModel {
            data,
            throughput: t,
            dimensionality: d,
            synchronicity: sy,
            complexity: c,
            direction: r,
            user: u,
            keep: x,
        })))
    } else {
        None
    }
}

/// `Stream<`, a data type, optionally a comma and options, then `>`.
pub open spec fn p_stream(s: Seq<char>, i: int) -> Option<(LogicalModel, int)>
    decreases s.len() - i, 5int,
{
    match w_tag(s, i, "Stream<"@) {
        None => None,
        Some(i1) => if i < i1 <= s.len() {
            match p_lst(s, i1) {
                None => None,
                Some((data, i2)) => {
                    let i3 = ws_end(s, i2);
                    let (opts, i4) = match w_tag(s, i3, ","@) {
                        None => (Seq::empty(), i3),
                        Some(j) => if i < j <= s.len() {
                            match p_options(s, j) {
                                Some(r) => r,
                                None => (Seq::empty(), i3),
                            }
                        } else {
                            (Seq::empty(), i3)
                        },
                    };
                    if has_tag(s, i4, ">"@) {
                        match stream_of(s, i, data, opts) {
                            Some(m) => Some((m, i4 + 1)),
                            None => None,
                        }
                    } else {
                        None
                    }
                },
            }
        } else {
            None
        },
    }
}

// ---------------------------------------------------------------------
// Interfaces and streamlets.

/// An interface: a doc string, a name, `:`, a mode, whitespace and a type;
/// the name may not be reserved.
pub open spec fn p_interface(s: Seq<char>, i: int) -> Option<(InterfaceModel, int)> {
    let (lines, j0) = p_doc_block(s, i);
    match p_name(s, ws_end(s, j0)) {
        None => None,
        Some((n, j2)) => match w_tag(s, ws_end(s, j2), ":"@) {
            None => None,
            Some(j4) => match p_mode(s, j4) {
                None => None,
                Some((m, j5)) => {
                    let j6 = run_end(s, j5, CharClass::Multispace);
                    if j6 > j5 {
                        match p_lst(s, j6) {
                            None => None,
                            Some((t, j7)) => if is_reserved_name(n) {
                                None
                            } else {
                                Some((InterfaceModel { name: n, mode: m, typ: t, doc: doc_of(lines) }, j7))
                            },
                        }
                    } else {
                        None
                    }
                },
            },
        },
    }
}

/// More interfaces, each after a comma and optional whitespace, and each
/// followed by optional whitespace.
pub open spec fn p_interfaces_more(s: Seq<char>, i: int, acc: Seq<InterfaceModel>) -> (Seq<InterfaceModel>, int)
    decreases s.len() - i,
{
    match w_tag(s, i, ","@) {
        None => (acc, i),
        Some(j) => match p_interface(s, j) {
            None => (acc, i),
            Some((f, k)) => {
                let e = ws_end(s, k);
                if i < e <= s.len() { p_interfaces_more(s, e, acc.push(f)) } else { (acc, i) }
            },
        },
    }
}

/// Interfaces separated by commas; none at all when the first is missing.
pub open spec fn p_interfaces(s: Seq<char>, i: int) -> (Seq<InterfaceModel>, int) {
    match p_interface(s, i) {
        None => (Seq::empty(), i),
        Some((f, k)) => p_interfaces_more(s, ws_end(s, k), seq![f]),
    }
}

/// A streamlet: a doc string, `Streamlet`, a name, `(`, interfaces and
/// `)`; the names of the interfaces may not repeat.
pub open spec fn p_streamlet(s: Seq<char>, i: int) -> Option<(StreamletModel, int)> {
    let (lines, j0) = p_doc_block(s, i);
    match w_tag(s, ws_end(s, j0), "Streamlet"@) {
        None => None,
        Some(j2) => match p_name(s, j2) {
            None => None,
            Some((n, j3)) => match w_tag(s, ws_end(s, j3), "("@) {
                None => None,
                Some(j5) => {
                    let (ifs, j6) = p_interfaces(s, j5);
                    if has_tag(s, j6, ")"@) && !has_duplicate_interface(ifs) {
                        Some((StreamletModel { name: n, interfaces: ifs, doc: doc_of(lines) }, j6 + 1))
                    } else {
                        None
                    }
                },
            },
        },
    }
}

/// More streamlets, each after whitespace.
pub open spec fn p_streamlets_more(s: Seq<char>, i: int, acc: Seq<StreamletModel>) -> (Seq<StreamletModel>, int)
    decreases s.len() - i,
{
    let j = run_end(s, i, CharClass::Multispace);
    if j > i {
        match p_streamlet(s, j) {
            None => (acc, i),
            Some((f, k)) => if i < k <= s.len() { p_streamlets_more(s, k, acc.push(f)) } else { (acc, i) },
        }
    } else {
        (acc, i)
    }
}

/// Optional whitespace, then streamlets separated by whitespace.
pub open spec fn p_streamlet_list(s: Seq<char>) -> (Seq<StreamletModel>, int) {
    let i = ws_end(s, 0);
    match p_streamlet(s, i) {
        None => (Seq::empty(), i),
        Some((f, k)) => p_streamlets_more(s, k, seq![f]),
    }
}

// ---------------------------------------------------------------------
// Readers of the rules, by position.

/// The characters from `a` to `b`.
fn sub_chars(cs: &Vec<char>, a: usize, b: usize) -> (v: Vec<char>)
    requires
        a <= b <= cs@.len(),
    ensures
        v@ == cs@.subrange(a as int, b as int),
{
    let mut v: Vec<char> = Vec::new();
    let mut k: usize = a;
    while k < b
        invariant
            a <= k <= b <= cs@.len(),
            v@ == cs@.subrange(a as int, k as int),
        decreases b - k,
    {
        v.push(cs[k]);
        k = k + 1;
        assert(v@ =~= cs@.subrange(a as int, k as int));
    }
    v
}

/// The text from `a` to `b`.
fn text_of(cs: &Vec<char>, a: usize, b: usize) -> (t: String)
    requires
        a <= b <= cs@.len(),
    ensures
        t@ == cs@.subrange(a as int, b as int),
{
    let v = sub_chars(cs, a, b);
    string_of(v.as_slice())
}

fn name_at(cs: &Vec<char>, i: usize) -> (r: Option<(Name, usize)>)
    requires
        i <= cs@.len(),
    ensures
        r is Some <==> p_name(cs@, i as int) is Some,
        r matches Some((n, j)) ==> p_name(cs@, i as int) == Some((n@, j as int)) && i < j <= cs@.len(),
{
    let j = scan_run(cs, i, CharClass::Word);
    let t = text_of(cs, i, j);
    match Name::try_new(t.as_str()) {
        Ok(n) => Some((n, j)),
        Err(_) => None,
    }
}

fn find_tag_from(cs: &Vec<char>, i: usize, t: &str) -> (r: Option<usize>)
    requires
        i <= cs@.len(),
    ensures
        r is Some <==> find_tag(cs@, i as int, t@) is Some,
        r matches Some(k) ==> find_tag(cs@, i as int, t@) == Some(k as int) && i <= k && k + t@.len() <= cs@.len(),
    decreases cs@.len() - i,
{
    assert(cs@.len() == cs.len());
    let n = t.unicode_len();
    if n > cs.len() - i {
        return None;
    }
    if at_tag(cs, i, t) {
        Some(i)
    } else if i < cs.len() {
        find_tag_from(cs, i + 1, t)
    } else {
        None
    }
}

fn comment_delimited_at(cs: &Vec<char>, i: usize) -> (r: Option<usize>)
    requires
        i <= cs@.len(),
    ensures
        r is Some <==> p_comment_delimited(cs@, i as int) is Some,
        r matches Some(k) ==> p_comment_delimited(cs@, i as int) == Some(k as int) && i < k <= cs@.len(),
{
    proof { reveal_strlit("/*"); reveal_strlit("*/"); }
    assert(cs@.len() == cs.len());
    if at_tag(cs, i, "/*") {
        match find_tag_from(cs, i + 2, "*/") {
            Some(k) => Some(k + 2),
            None => None,
        }
    } else {
        None
    }
}

fn line_end_at(cs: &Vec<char>, i: usize) -> (j: usize)
    requires
        i <= cs@.len(),
    ensures
        j == line_end(cs@, i as int),
        i <= j <= cs@.len(),
{
    scan_run(cs, i, CharClass::NotNewline)
}

fn comment_line_at(cs: &Vec<char>, i: usize) -> (r: Option<usize>)
    requires
        i <= cs@.len(),
    ensures
        r is Some <==> p_comment_line(cs@, i as int) is Some,
        r matches Some(k) ==> p_comment_line(cs@, i as int) == Some(k as int) && i < k <= cs@.len(),
{
    proof { reveal_strlit("//"); }
    assert(cs@.len() == cs.len());
    if at_tag(cs, i, "//") && (i + 2 >= cs.len() || cs[i + 2] != '/') {
        Some(line_end_at(cs, i + 2))
    } else {
        None
    }
}

fn comment_doc_at(cs: &Vec<char>, i: usize) -> (r: Option<(usize, usize)>)
    requires
        i <= cs@.len(),
    ensures
        r is Some <==> p_comment_doc(cs@, i as int) is Some,
        r matches Some((a, k)) ==> p_comment_doc(cs@, i as int) == Some((cs@.subrange(a as int, k as int), k as int))
            && i < a <= k <= cs@.len(),
{
    proof { reveal_strlit("///"); }
    assert(cs@.len() == cs.len());
    if at_tag(cs, i, "///") {
        Some((i + 3, line_end_at(cs, i + 3)))
    } else {
        None
    }
}

/// A comment at `i`: the bounds of its text and its end.
fn comment_at(cs: &Vec<char>, i: usize) -> (r: Option<(usize, usize, usize)>)
    requires
        i <= cs@.len(),
    ensures
        r is Some <==> p_comment(cs@, i as int) is Some,
        r matches Some((a, b, k)) ==> p_comment(cs@, i as int) == Some((cs@.subrange(a as int, b as int), k as int))
            && a <= b <= cs@.len() && i < k <= cs@.len(),
{
    match comment_doc_at(cs, i) {
        Some((a, k)) => Some((a, k, k)),
        None => match comment_line_at(cs, i) {
            Some(k) => {
                assert(cs@.subrange(k as int, k as int) =~= Seq::<char>::empty());
                Some((k, k, k))
            },
            None => match comment_delimited_at(cs, i) {
                Some(k) => {
                    assert(cs@.subrange(k as int, k as int) =~= Seq::<char>::empty());
                    Some((k, k, k))
                },
                None => None,
            },
        },
    }
}

/// The texts at the given bounds.
pub open spec fn texts_at(s: Seq<char>, b: Seq<(usize, usize)>) -> Seq<Seq<char>> {
    b.map_values(|x: (usize, usize)| s.subrange(x.0 as int, x.1 as int))
}

/// The comments at `i`: the bounds of their texts and the position after
/// them.
fn doc_block_at(cs: &Vec<char>, i: usize) -> (r: (Vec<(usize, usize)>, usize))
    requires
        i <= cs@.len(),
    ensures
        p_doc_block(cs@, i as int) == (texts_at(cs@, r.0@), r.1 as int),
        i <= r.1 <= cs@.len(),
        forall|m: int| 0 <= m < r.0@.len() ==> (#[trigger] r.0@[m]).0 <= r.0@[m].1 <= cs@.len(),
{
    let mut acc: Vec<(usize, usize)> = Vec::new();
    let mut k: usize = i;
    while true
        invariant
            i <= k <= cs@.len(),
            p_doc_block(cs@, i as int) == (texts_at(cs@, acc@) + p_doc_block(cs@, k as int).0, p_doc_block(cs@, k as int).1),
            forall|m: int| 0 <= m < acc@.len() ==> (#[trigger] acc@[m]).0 <= acc@[m].1 <= cs@.len(),
        decreases cs@.len() - k,
    {
        match comment_at(cs, k) {
            Some((a, b, j)) => {
                let e = scan_run(cs, j, CharClass::Multispace);
                let ghost before = acc@;
                acc.push((a, b));
                proof {
                    assert(texts_at(cs@, acc@) =~= texts_at(cs@, before).push(cs@.subrange(a as int, b as int)));
                    let rest = p_doc_block(cs@, e as int).0;
                    assert(texts_at(cs@, before) + (seq![cs@.subrange(a as int, b as int)] + rest)
                        =~= texts_at(cs@, acc@) + rest);
                }
                k = e;
            },
            None => {
                assert(texts_at(cs@, acc@) + Seq::<Seq<char>>::empty() =~= texts_at(cs@, acc@));
                return (acc, k);
            },
        }
    }
    (acc, k)
}

/// The doc string at `i` and the position after it.
fn doc_at(cs: &Vec<char>, i: usize) -> (r: (Option<String>, usize))
    requires
        i <= cs@.len(),
    ensures
        opt_view(r.0) == doc_of(p_doc_block(cs@, i as int).0),
        r.1 == p_doc_block(cs@, i as int).1,
        i <= r.1 <= cs@.len(),
{
    let (bounds, e) = doc_block_at(cs, i);
    let ghost v = texts_at(cs@, bounds@);
    let mut t = String::new();
    let mut any = false;
    let mut k: usize = 0;
    while k < bounds.len()
        invariant
            k <= bounds@.len(),
            v == texts_at(cs@, bounds@),
            forall|m: int| 0 <= m < bounds@.len() ==> (#[trigger] bounds@[m]).0 <= bounds@[m].1 <= cs@.len(),
            t@ == join_lines(doc_lines(v.take(k as int))),
            any == (doc_lines(v.take(k as int)).len() > 0),
        decreases bounds@.len() - k,
    {
        let (a, b) = bounds[k];
        proof {
            assert(v.take(k + 1).drop_last() =~= v.take(k as int));
            assert(v.take(k + 1).last() == cs@.subrange(a as int, b as int));
        }
        if a < b {
            if any {
                push_char(&mut t, '\n');
            }
            let piece = text_of(cs, a, b);
            t.append(piece.as_str());
            any = true;
            proof {
                let prev = doc_lines(v.take(k as int));
                assert(doc_lines(v.take(k + 1)) == prev.push(cs@.subrange(a as int, b as int)));
                assert(prev.push(cs@.subrange(a as int, b as int)).drop_last() =~= prev);
            }
        } else {
            assert(doc_lines(v.take(k + 1)) == doc_lines(v.take(k as int)));
        }
        k = k + 1;
    }
    assert(v.take(bounds@.len() as int) =~= v);
    proof {
        lemma_doc_lines_nonempty(v);
        lemma_join_lines_empty(doc_lines(v));
    }
    if any {
        (Some(t), e)
    } else {
        (None, e)
    }
}

/// Joined non-empty texts are empty only when there is none.
proof fn lemma_join_lines_empty(v: Seq<Seq<char>>)
    requires
        forall|k: int| 0 <= k < v.len() ==> (#[trigger] v[k]).len() > 0,
    ensures
        (join_lines(v).len() == 0) == (v.len() == 0),
    decreases v.len(),
{
    if v.len() > 1 {
        lemma_join_lines_empty(v.drop_last());
    }
}

fn bool_at(cs: &Vec<char>, i: usize) -> (r: Option<(bool, usize)>)
    requires
        i <= cs@.len(),
    ensures
        r is Some <==> p_bool(cs@, i as int) is Some,
        r matches Some((b, k)) ==> p_bool(cs@, i as int) == Some((b, k as int)) && i < k <= cs@.len(),
{
    proof { reveal_strlit("true"); reveal_strlit("false"); }
    assert(cs@.len() == cs.len());
    if at_tag(cs, i, "true") {
        Some((true, i + 4))
    } else if at_tag(cs, i, "false") {
        Some((false, i + 5))
    } else {
        None
    }
}

fn synchronicity_at(cs: &Vec<char>, i: usize) -> (r: Option<(Synchronicity, usize)>)
    requires
        i <= cs@.len(),
    ensures
        r is Some <==> p_synchronicity(cs@, i as int) is Some,
        r matches Some((v, k)) ==> p_synchronicity(cs@, i as int) == Some((v, k as int)) && i < k <= cs@.len(),
{
    proof {
        reveal_strlit("Sync");
        reveal_strlit("Flatten");
        reveal_strlit("Desync");
        reveal_strlit("FlatDesync");
    }
    assert(cs@.len() == cs.len());
    if at_tag(cs, i, "Sync") {
        Some((Synchronicity::Sync, i + 4))
    } else if at_tag(cs, i, "Flatten") {
        Some((Synchronicity::Flatten, i + 7))
    } else if at_tag(cs, i, "Desync") {
        Some((Synchronicity::Desync, i + 6))
    } else if at_tag(cs, i, "FlatDesync") {
        Some((Synchronicity::FlatDesync, i + 10))
    } else {
        None
    }
}

fn direction_at(cs: &Vec<char>, i: usize) -> (r: Option<(Direction, usize)>)
    requires
        i <= cs@.len(),
    ensures
        r is Some <==> p_direction(cs@, i as int) is Some,
        r matches Some((v, k)) ==> p_direction(cs@, i as int) == Some((v, k as int)) && i < k <= cs@.len(),
{
    proof { reveal_strlit("Forward"); reveal_strlit("Reverse"); }
    assert(cs@.len() == cs.len());
    if at_tag(cs, i, "Forward") {
        Some((Direction::Forward, i + 7))
    } else if at_tag(cs, i, "Reverse") {
        Some((Direction::Reverse, i + 7))
    } else {
        None
    }
}

fn mode_at(cs: &Vec<char>, i: usize) -> (r: Option<(Mode, usize)>)
    requires
        i <= cs@.len(),
    ensures
        r is Some <==> p_mode(cs@, i as int) is Some,
        r matches Some((v, k)) ==> p_mode(cs@, i as int) == Some((v, k as int)) && i < k <= cs@.len(),
{
    proof { reveal_strlit("in"); reveal_strlit("out"); }
    assert(cs@.len() == cs.len());
    if at_tag(cs, i, "in") {
        Some((Mode::In, i + 2))
    } else if at_tag(cs, i, "out") {
        Some((Mode::Out, i + 3))
    } else {
        None
    }
}

#[verifier::loop_isolation(false)]
fn complexity_at(cs: &Vec<char>, i: usize) -> (r: Option<(Vec<usize>, usize)>)
    requires
        i <= cs@.len(),
    ensures
        r is Some <==> p_complexity(cs@, i as int) is Some,
        r matches Some((v, k)) ==> p_complexity(cs@, i as int) == Some((v@, k as int)) && i < k <= cs@.len()
            && v@.len() > 0,
{
    let (first, j) = match scan_number(cs, i) {
        None => return None,
        Some(x) => x,
    };
    let mut levels: Vec<usize> = vec![first];
    let mut k: usize = j;
    assert(levels@ == seq![first]);
    while true
        invariant
            i < k <= cs@.len(),
            levels@.len() > 0,
            p_levels(cs@, j as int, seq![first]) == p_levels(cs@, k as int, levels@),
        decreases cs@.len() - k,
    {
        proof { reveal_strlit("."); }
        match scan_w_tag(cs, k, ".") {
            None => {
                return Some((levels, k));
            },
            Some(d) => {
                match scan_number(cs, d) {
                    None => {
                        return Some((levels, k));
                    },
                    Some((v, e)) => {
                        levels.push(v);
                        k = e;
                    },
                }
            },
        }
    }
    Some((levels, k))
}

fn null_at(cs: &Vec<char>, i: usize) -> (r: Option<usize>)
    requires
        i <= cs@.len(),
    ensures
        r is Some <==> p_null(cs@, i as int) is Some,
        r matches Some(k) ==> p_null(cs@, i as int) == Some((LogicalModel::Null, k as int)) && i < k <= cs@.len(),
{
    proof { reveal_strlit("Null"); }
    assert(cs@.len() == cs.len());
    if at_tag(cs, i, "Null") { Some(i + 4) } else { None }
}

fn bits_at(cs: &Vec<char>, i: usize) -> (r: Option<(usize, usize)>)
    requires
        i <= cs@.len(),
    ensures
        r is Some <==> p_bits(cs@, i as int) is Some,
        r matches Some((n, k)) ==> p_bits(cs@, i as int) == Some((LogicalModel::Bits(n as nat), k as int))
            && i < k <= cs@.len() && n > 0,
{
    proof { reveal_strlit("Bits<"); reveal_strlit(">"); }
    assert(cs@.len() == cs.len());
    let i1 = match scan_w_tag(cs, i, "Bits<") {
        None => return None,
        Some(x) => x,
    };
    let (n, i2) = match scan_number(cs, i1) {
        None => return None,
        Some(x) => x,
    };
    let i3 = scan_run(cs, i2, CharClass::Multispace);
    if at_tag(cs, i3, ">") && n > 0 {
        Some((n, i3 + 1))
    } else {
        None
    }
}

/// The logical stream type at `i` and its end.
fn lst_at(cs: &Vec<char>, i: usize) -> (r: Option<(LogicalStreamType, usize)>)
    requires
        i <= cs@.len(),
    ensures
        r is Some <==> p_lst(cs@, i as int) is Some,
        r matches Some((t, k)) ==> p_lst(cs@, i as int) == Some((t@, k as int)) && i < k <= cs@.len(),
    decreases cs@.len() - i, 6int,
{
    match null_at(cs, i) {
        Some(k) => return Some((LogicalStreamType::Null, k)),
        None => {},
    }
    match bits_at(cs, i) {
        Some((n, k)) => return Some((LogicalStreamType::Bits(n), k)),
        None => {},
    }
    match group_or_union_at(cs, i, true) {
        Some(r) => return Some(r),
        None => {},
    }
    match group_or_union_at(cs, i, false) {
        Some(r) => return Some(r),
        None => {},
    }
    stream_at(cs, i)
}

fn field_at(cs: &Vec<char>, i: usize) -> (r: Option<((Name, LogicalStreamType), usize)>)
    requires
        i <= cs@.len(),
    ensures
        r is Some <==> p_field(cs@, i as int) is Some,
        r matches Some((f, k)) ==> p_field(cs@, i as int) == Some(((f.0@, f.1@), k as int)) && i < k <= cs@.len(),
    decreases cs@.len() - i, 2int,
{
    proof { reveal_strlit(":"); }
    let (n, j) = match name_at(cs, i) {
        None => return None,
        Some(x) => x,
    };
    let w = scan_run(cs, j, CharClass::Multispace);
    let k = match scan_w_tag(cs, w, ":") {
        None => return None,
        Some(x) => x,
    };
    let (t, e) = match lst_at(cs, k) {
        None => return None,
        Some(x) => x,
    };
    let e2 = scan_run(cs, e, CharClass::Multispace);
    Some(((n, t), e2))
}

#[verifier::loop_isolation(false)]
fn fields_at(cs: &Vec<char>, i: usize) -> (r: Option<(Vec<(Name, LogicalStreamType)>, usize)>)
    requires
        i <= cs@.len(),
    ensures
        r is Some <==> p_fields(cs@, i as int) is Some,
        r matches Some((v, k)) ==> p_fields(cs@, i as int) == Some((fields_model(v@), k as int)) && i <= k <= cs@.len(),
    decreases cs@.len() - i, 4int,
{
    proof { reveal_strlit(","); }
    let (f0, j) = match field_at(cs, i) {
        None => {
            proof { assert(fields_model(Seq::<(Name, LogicalStreamType)>::empty()) =~= Seq::empty()); }
            return Some((Vec::new(), i));
        },
        Some(x) => x,
    };
    let mut acc: Vec<(Name, LogicalStreamType)> = Vec::new();
    proof { lemma_fields_model_push(acc@, f0); }
    acc.push(f0);
    let mut k: usize = j;
    assert(fields_model(acc@) =~= seq![(f0.0@, f0.1@)]);
    while true
        invariant
            i < k <= cs@.len(),
            p_fields(cs@, i as int) == p_fields_more(cs@, k as int, fields_model(acc@)),
        decreases cs@.len() - k,
    {
        let c = match scan_w_tag(cs, k, ",") {
            None => return Some((acc, k)),
            Some(c) => c,
        };
        match field_at(cs, c) {
            None => return Some((acc, k)),
            Some((f, e)) => {
                proof { lemma_fields_model_push(acc@, f); }
                acc.push(f);
                k = e;
            },
        }
    }
    None
}

fn group_or_union_at(cs: &Vec<char>, i: usize, group: bool) -> (r: Option<(LogicalStreamType, usize)>)
    requires
        i <= cs@.len(),
    ensures
        r is Some <==> p_group_or_union(cs@, i as int, group) is Some,
        r matches Some((t, k)) ==> p_group_or_union(cs@, i as int, group) == Some((t@, k as int)) && i < k <= cs@.len(),
    decreases cs@.len() - i, 5int,
{
    proof { reveal_strlit("Group<"); reveal_strlit("Union<"); reveal_strlit(">"); }
    assert(cs@.len() == cs.len());
    let word = if group { "Group<" } else { "Union<" };
    let i1 = match scan_w_tag(cs, i, word) {
        None => return None,
        Some(x) => x,
    };
    let (fields, i2) = match fields_at(cs, i1) {
        None => return None,
        Some(x) => x,
    };
    let i3 = scan_run(cs, i2, CharClass::Multispace);
    if !at_tag(cs, i3, ">") {
        return None;
    }
    let t = if group { LogicalStreamType::try_new_group(fields) } else { LogicalStreamType::try_new_union(fields) };
    match t {
        Ok(t) => Some((t, i3 + 1)),
        Err(_) => None,
    }
}

/// The end of the text of an option's value at `i`.
fn value_end_at(cs: &Vec<char>, i: usize) -> (r: Option<usize>)
    requires
        i <= cs@.len(),
    ensures
        r is Some <==> p_value_end(cs@, i as int) is Some,
        r matches Some(k) ==> p_value_end(cs@, i as int) == Some(k as int) && i < k <= cs@.len(),
    decreases cs@.len() - i, 7int,
{
    assert(cs@.len() == cs.len());
    match scan_float(cs, i) {
        Some(j) => return Some(j),
        None => {},
    }
    let d = scan_run(cs, i, CharClass::Digit);
    if d > i {
        return Some(d);
    }
    match synchronicity_at(cs, i) {
        Some((_, j)) => return Some(j),
        None => {},
    }
    match complexity_at(cs, i) {
        Some((_, j)) => return Some(j),
        None => {},
    }
    match direction_at(cs, i) {
        Some((_, j)) => return Some(j),
        None => {},
    }
    match lst_at(cs, i) {
        Some((_, j)) => return Some(j),
        None => {},
    }
    match bool_at(cs, i) {
        Some((_, j)) => Some(j),
        None => None,
    }
}

fn is_key(c: char) -> (b: bool)
    ensures
        b == is_option_key(c),
{
    c == 't' || c == 'd' || c == 's' || c == 'c' || c == 'r' || c == 'u' || c == 'x'
}

fn option_at(cs: &Vec<char>, i: usize) -> (r: Option<((char, usize, usize), usize)>)
    requires
        i <= cs@.len(),
    ensures
        r is Some <==> p_option(cs@, i as int) is Some,
        r matches Some((o, k)) ==> p_option(cs@, i as int) == Some(((o.0, o.1 as int, o.2 as int), k as int))
            && i < k <= cs@.len() && o.1 <= o.2 <= cs@.len(),
    decreases cs@.len() - i, 2int,
{
    proof { reveal_strlit("="); }
    if !(i < cs.len() && is_key(cs[i])) {
        return None;
    }
    let w = scan_run(cs, i + 1, CharClass::Multispace);
    let k = match scan_w_tag(cs, w, "=") {
        None => return None,
        Some(x) => x,
    };
    let e = match value_end_at(cs, k) {
        None => return None,
        Some(x) => x,
    };
    let e2 = scan_run(cs, e, CharClass::Multispace);
    Some(((cs[i], k, e), e2))
}

/// The positions of option entries.
pub open spec fn option_entries(v: Seq<(char, usize, usize)>) -> Seq<(char, int, int)> {
    v.map_values(|o: (char, usize, usize)| (o.0, o.1 as int, o.2 as int))
}

#[verifier::loop_isolation(false)]
fn options_at(cs: &Vec<char>, i: usize) -> (r: Option<(Vec<(char, usize, usize)>, usize)>)
    requires
        i <= cs@.len(),
    ensures
        r is Some <==> p_options(cs@, i as int) is Some,
        r matches Some((v, k)) ==> p_options(cs@, i as int) == Some((option_entries(v@), k as int)) && i <= k <= cs@.len(),
    decreases cs@.len() - i, 4int,
{
    proof { reveal_strlit(","); }
    let (o0, j) = match option_at(cs, i) {
        None => {
            proof { assert(option_entries(Seq::<(char, usize, usize)>::empty()) =~= Seq::empty()); }
            return Some((Vec::new(), i));
        },
        Some(x) => x,
    };
    let mut acc: Vec<(char, usize, usize)> = Vec::new();
    acc.push(o0);
    let mut k: usize = j;
    assert(option_entries(acc@) =~= seq![(o0.0, o0.1 as int, o0.2 as int)]);
    while true
        invariant
            i < k <= cs@.len(),
            p_options(cs@, i as int) == p_options_more(cs@, k as int, option_entries(acc@)),
        decreases cs@.len() - k,
    {
        let c = match scan_w_tag(cs, k, ",") {
            None => return Some((acc, k)),
            Some(c) => c,
        };
        match option_at(cs, c) {
            None => return Some((acc, k)),
            Some((o, e)) => {
                let ghost before = acc@;
                acc.push(o);
                assert(option_entries(acc@) =~= option_entries(before).push((o.0, o.1 as int, o.2 as int)));
                k = e;
            },
        }
    }
    None
}

/// The entry given last for a key.
fn last_option_of(opts: &Vec<(char, usize, usize)>, key: char) -> (r: Option<(usize, usize)>)
    ensures
        r is Some <==> last_option(option_entries(opts@), key) is Some,
        r matches Some((a, b)) ==> last_option(option_entries(opts@), key) == Some((a as int, b as int)),
{
    let ghost all = option_entries(opts@);
    let mut k: usize = opts.len();
    assert(all.take(k as int) =~= all);
    while k > 0
        invariant
            k <= opts@.len(),
            all == option_entries(opts@),
            last_option(all, key) == last_option(all.take(k as int), key),
        decreases k,
    {
        proof { assert(all.take(k as int).drop_last() =~= all.take(k - 1)); }
        if opts[k - 1].0 == key {
            return Some((opts[k - 1].1, opts[k - 1].2));
        }
        k = k - 1;
    }
    None
}

/// The characters of the option given last for a key, if it lies after
/// `i`.
fn option_chars(cs: &Vec<char>, i: usize, opts: &Vec<(char, usize, usize)>, key: char) -> (r: Option<Vec<char>>)
    ensures
        r is Some <==> option_text(cs@, i as int, option_entries(opts@), key) is Some,
        r matches Some(v) ==> option_text(cs@, i as int, option_entries(opts@), key) == Some(v@),
{
    match last_option_of(opts, key) {
        Some((a, b)) => if i < a && a <= b && b <= cs.len() {
            Some(sub_chars(cs, a, b))
        } else {
            None
        },
        None => None,
    }
}

/// The number written with decimal digits and an optional plus sign.
fn usize_text_of(t: &Vec<char>) -> (r: Option<usize>)
    ensures
        r is Some <==> usize_text(t@) is Some,
        r matches Some(v) ==> usize_text(t@) == Some(v as nat),
{
    let start: usize = if t.len() > 0 && t[0] == '+' { 1 } else { 0 };
    let ghost d = unsigned_digits(t@);
    assert(d =~= t@.subrange(start as int, t@.len() as int));
    if start >= t.len() {
        return None;
    }
    let j = scan_run(t, start, CharClass::Digit);
    proof { crate::scan::lemma_run_end(t@, start as int, CharClass::Digit); }
    if j != t.len() {
        proof {
            assert(!crate::scan::in_class(t@[j as int], CharClass::Digit));
            assert(!is_digit(d[j - start]));
            assert(!all_digits(d));
        }
        return None;
    }
    assert forall|k: int| 0 <= k < d.len() implies is_digit(#[trigger] d[k]) by {
        assert(crate::scan::in_class(t@[start + k], CharClass::Digit));
    }
    match scan_number(t, start) {
        Some((v, _)) => Some(v),
        None => None,
    }
}

/// The stream node that a data type and options make.
fn stream_build(cs: &Vec<char>, i: usize, data: LogicalStreamType, opts: &Vec<(char, usize, usize)>)
    -> (r: Option<LogicalStreamType>)
    requires
        i <= cs@.len(),
    ensures
        r is Some <==> stream_of(cs@, i as int, data@, option_entries(opts@)) is Some,
        r matches Some(t) ==> stream_of(cs@, i as int, data@, option_entries(opts@)) == Some(t@),
    decreases cs@.len() - i, 1int,
{
    let ghost entries = option_entries(opts@);
    let tp: String = match option_chars(cs, i, opts, 't') {
        Some(tc) => match scan_float(&tc, 0) {
            Some(e) => if e == tc.len() { string_of(tc.as_slice()) } else { String::from_str("1") },
            None => String::from_str("1"),
        },
        None => String::from_str("1"),
    };
    proof {
        reveal_strlit("1");
        reveal_with_fuel(run_end, 3);
        assert(float_end("1"@, 0) == Some(1int));
    }
    let throughput = match PositiveReal::try_new(tp.as_str()) {
        Ok(p) => p,
        Err(_) => return None,
    };
    let d: usize = match option_chars(cs, i, opts, 'd') {
        Some(x) => match usize_text_of(&x) {
            Some(v) => v,
            None => 0,
        },
        None => 0,
    };
    let sy = match option_chars(cs, i, opts, 's') {
        Some(x) => match synchronicity_at(&x, 0) {
            Some((v, _)) => v,
            None => Synchronicity::Sync,
        },
        None => Synchronicity::Sync,
    };
    let c = match option_chars(cs, i, opts, 'c') {
        Some(x) => {
            match complexity_at(&x, 0) {
                Some((v, _)) => match Complexity::new(v) {
                    Ok(c) => c,
                    Err(_) => Complexity::default_level(),
                },
                None => Complexity::default_level(),
            }
        },
        None => Complexity::default_level(),
    };
    let r = match option_chars(cs, i, opts, 'r') {
        Some(x) => match direction_at(&x, 0) {
            Some((v, _)) => v,
            None => Direction::Forward,
        },
        None => Direction::Forward,
    };
    let u: Option<Box<LogicalStreamType>> = match last_option_of(opts, 'u') {
        Some((a, b)) => if i < a && a <= b && b <= cs.len() {
            let x = sub_chars(cs, a, b);
            match lst_at(&x, 0) {
                Some((v, _)) => Some(Box::new(v)),
                None => None,
            }
        } else {
            None
        },
        None => None,
    };
    let x = match option_chars(cs, i, opts, 'x') {
        Some(x) => match bool_at(&x, 0) {
            Some((v, _)) => v,
            None => false,
        },
        None => false,
    };
    let s = Stream::new(data, throughput, d, sy, c, r, u, x);
    Some(LogicalStreamType::Stream(s))
}

fn stream_at(cs: &Vec<char>, i: usize) -> (r: Option<(LogicalStreamType, usize)>)
    requires
        i <= cs@.len(),
    ensures
        r is Some <==> p_stream(cs@, i as int) is Some,
        r matches Some((t, k)) ==> p_stream(cs@, i as int) == Some((t@, k as int)) && i < k <= cs@.len(),
    decreases cs@.len() - i, 5int,
{
    proof { reveal_strlit("Stream<"); reveal_strlit(","); reveal_strlit(">"); }
    assert(cs@.len() == cs.len());
    let i1 = match scan_w_tag(cs, i, "Stream<") {
        None => return None,
        Some(x) => x,
    };
    let (data, i2) = match lst_at(cs, i1) {
        None => return None,
        Some(x) => x,
    };
    let i3 = scan_run(cs, i2, CharClass::Multispace);
    let (opts, i4) = match scan_w_tag(cs, i3, ",") {
        None => (Vec::new(), i3),
        Some(j) => match options_at(cs, j) {
            Some(r) => r,
            None => (Vec::new(), i3),
        },
    };
    assert(option_entries(Seq::<(char, usize, usize)>::empty()) =~= Seq::empty());
    if !at_tag(cs, i4, ">") {
        return None;
    }
    match stream_build(cs, i, data, &opts) {
        Some(t) => Some((t, i4 + 1)),
        None => None,
    }
}

fn doc_str(d: &Option<String>) -> (r: Option<&str>)
    ensures
        crate::design::opt_str_view(r) == opt_view(*d),
{
    match d {
        Some(t) => Some(t.as_str()),
        None => None,
    }
}

fn interface_at(cs: &Vec<char>, i: usize) -> (r: Option<(Interface, usize)>)
    requires
        i <= cs@.len(),
    ensures
        r is Some <==> p_interface(cs@, i as int) is Some,
        r matches Some((f, k)) ==> p_interface(cs@, i as int) == Some((f@, k as int)) && i < k <= cs@.len(),
{
    proof { reveal_strlit(":"); }
    let (d, j0) = doc_at(cs, i);
    let j1 = scan_run(cs, j0, CharClass::Multispace);
    let (n, j2) = match name_at(cs, j1) {
        None => return None,
        Some(x) => x,
    };
    let j3 = scan_run(cs, j2, CharClass::Multispace);
    let j4 = match scan_w_tag(cs, j3, ":") {
        None => return None,
        Some(x) => x,
    };
    let (m, j5) = match mode_at(cs, j4) {
        None => return None,
        Some(x) => x,
    };
    let j6 = scan_run(cs, j5, CharClass::Multispace);
    if j6 == j5 {
        return None;
    }
    let (t, j7) = match lst_at(cs, j6) {
        None => return None,
        Some(x) => x,
    };
    match Interface::try_new(n, m, t, doc_str(&d)) {
        Ok(f) => Some((f, j7)),
        Err(_) => None,
    }
}

#[verifier::loop_isolation(false)]
fn interfaces_at(cs: &Vec<char>, i: usize) -> (r: (Vec<Interface>, usize))
    requires
        i <= cs@.len(),
    ensures
        p_interfaces(cs@, i as int) == (interface_models(r.0@), r.1 as int),
        i <= r.1 <= cs@.len(),
{
    proof { reveal_strlit(","); }
    let (f0, j) = match interface_at(cs, i) {
        None => {
            assert(interface_models(Seq::<Interface>::empty()) =~= Seq::empty());
            return (Vec::new(), i);
        },
        Some(x) => x,
    };
    let mut acc: Vec<Interface> = Vec::new();
    acc.push(f0);
    assert(interface_models(acc@) =~= seq![f0@]);
    let mut k: usize = scan_run(cs, j, CharClass::Multispace);
    while true
        invariant
            i < k <= cs@.len(),
            p_interfaces(cs@, i as int) == p_interfaces_more(cs@, k as int, interface_models(acc@)),
        decreases cs@.len() - k,
    {
        let c = match scan_w_tag(cs, k, ",") {
            None => return (acc, k),
            Some(c) => c,
        };
        match interface_at(cs, c) {
            None => return (acc, k),
            Some((f, e)) => {
                let e2 = scan_run(cs, e, CharClass::Multispace);
                let ghost before = acc@;
                acc.push(f);
                assert(interface_models(acc@) =~= interface_models(before).push(f@));
                k = e2;
            },
        }
    }
    (acc, k)
}

fn streamlet_at(cs: &Vec<char>, i: usize) -> (r: Option<(Streamlet, usize)>)
    requires
        i <= cs@.len(),
    ensures
        r is Some <==> p_streamlet(cs@, i as int) is Some,
        r matches Some((f, k)) ==> p_streamlet(cs@, i as int) == Some((f@, k as int)) && i < k <= cs@.len(),
{
    proof { reveal_strlit("Streamlet"); reveal_strlit("("); reveal_strlit(")"); }
    assert(cs@.len() == cs.len());
    let (d, j0) = doc_at(cs, i);
    let j1 = scan_run(cs, j0, CharClass::Multispace);
    let j2 = match scan_w_tag(cs, j1, "Streamlet") {
        None => return None,
        Some(x) => x,
    };
    let (n, j3) = match name_at(cs, j2) {
        None => return None,
        Some(x) => x,
    };
    let j4 = scan_run(cs, j3, CharClass::Multispace);
    let j5 = match scan_w_tag(cs, j4, "(") {
        None => return None,
        Some(x) => x,
    };
    let (ifs, j6) = interfaces_at(cs, j5);
    if !at_tag(cs, j6, ")") {
        return None;
    }
    match Streamlet::from_builder(n, ifs, doc_str(&d)) {
        Ok(f) => Some((f, j6 + 1)),
        Err(_) => None,
    }
}

/// The shapes of streamlets.
pub open spec fn streamlet_models(s: Seq<Streamlet>) -> Seq<StreamletModel> {
    s.map_values(|x: Streamlet| x@)
}

#[verifier::loop_isolation(false)]
fn streamlets_at(cs: &Vec<char>) -> (r: (Vec<Streamlet>, usize))
    requires
    ensures
        p_streamlet_list(cs@) == (streamlet_models(r.0@), r.1 as int),
        r.1 <= cs@.len(),
{
    let i = scan_run(cs, 0, CharClass::Multispace);
    let (f0, j) = match streamlet_at(cs, i) {
        None => {
            assert(streamlet_models(Seq::<Streamlet>::empty()) =~= Seq::empty());
            return (Vec::new(), i);
        },
        Some(x) => x,
    };
    let mut acc: Vec<Streamlet> = Vec::new();
    acc.push(f0);
    assert(streamlet_models(acc@) =~= seq![f0@]);
    let mut k: usize = j;
    while true
        invariant
            k <= cs@.len(),
            p_streamlet_list(cs@) == p_streamlets_more(cs@, k as int, streamlet_models(acc@)),
        decreases cs@.len() - k,
    {
        let w = scan_run(cs, k, CharClass::Multispace);
        if w == k {
            return (acc, k);
        }
        match streamlet_at(cs, w) {
            None => return (acc, k),
            Some((f, e)) => {
                let ghost before = acc@;
                acc.push(f);
                assert(streamlet_models(acc@) =~= streamlet_models(before).push(f@));
                k = e;
            },
        }
    }
    (acc, k)
}

// ---------------------------------------------------------------------
// The parsers: each reads a prefix of its input and gives back the rest.

fn rest_of<'a>(input: &'a str, cs: &Vec<char>, k: usize) -> (rest: &'a str)
    requires
        cs@ == input@,
        k <= cs@.len(),
    ensures
        rest@ == input@.subrange(k as int, input@.len() as int),
{
    input.substring_char(k, cs.len())
}

/// Parses a name: the run of letters, digits and underscores at the start,
/// which must obey the naming rules.
pub fn name(input: &str) -> (r: Result<(&str, Name), ParseError>)
    ensures
        match p_name(input@, 0) {
            Some((t, j)) => r matches Ok((rest, n)) && n@ == t && rest@ == input@.subrange(j, input@.len() as int),
            None => r is Err,
        },
{
    let cs = chars_of(input);
    match name_at(&cs, 0) {
        Some((n, k)) => Ok((rest_of(input, &cs, k), n)),
        None => Err(ParseError),
    }
}

/// Parses a delimited comment, from `/*` to the first `*/`; it gives an
/// empty text.
pub fn comment_delimited(input: &str) -> (r: Result<(&str, &str), ParseError>)
    ensures
        match p_comment_delimited(input@, 0) {
            Some(j) => r matches Ok((rest, t)) && t@ == Seq::<char>::empty()
                && rest@ == input@.subrange(j, input@.len() as int),
            None => r is Err,
        },
{
    let cs = chars_of(input);
    proof { reveal_strlit(""); }
    match comment_delimited_at(&cs, 0) {
        Some(k) => Ok((rest_of(input, &cs, k), "")),
        None => Err(ParseError),
    }
}

/// Reads up to the next line feed, or to the end.
pub fn take_until_newline_or_eof(input: &str) -> (r: Result<(&str, &str), ParseError>)
    ensures
        r matches Ok((rest, t)) && t@ == input@.subrange(0, line_end(input@, 0))
            && rest@ == input@.subrange(line_end(input@, 0), input@.len() as int),
{
    let cs = chars_of(input);
    let k = line_end_at(&cs, 0);
    Ok((rest_of(input, &cs, k), input.substring_char(0, k)))
}

/// Parses a line comment that is no doc comment; it gives an empty text.
pub fn comment_line(input: &str) -> (r: Result<(&str, &str), ParseError>)
    ensures
        match p_comment_line(input@, 0) {
            Some(j) => r matches Ok((rest, t)) && t@ == Seq::<char>::empty()
                && rest@ == input@.subrange(j, input@.len() as int),
            None => r is Err,
        },
{
    let cs = chars_of(input);
    proof { reveal_strlit(""); }
    match comment_line_at(&cs, 0) {
        Some(k) => Ok((rest_of(input, &cs, k), "")),
        None => Err(ParseError),
    }
}

/// Parses a doc comment: `///` and the rest of its line, which it gives.
pub fn comment_doc(input: &str) -> (r: Result<(&str, &str), ParseError>)
    ensures
        match p_comment_doc(input@, 0) {
            Some((t, j)) => r matches Ok((rest, d)) && d@ == t && rest@ == input@.subrange(j, input@.len() as int),
            None => r is Err,
        },
{
    let cs = chars_of(input);
    match comment_doc_at(&cs, 0) {
        Some((a, k)) => Ok((rest_of(input, &cs, k), input.substring_char(a, k))),
        None => Err(ParseError),
    }
}

/// Parses a comment of any kind; a doc comment gives its text, the others
/// an empty one.
pub fn comment(input: &str) -> (r: Result<(&str, &str), ParseError>)
    ensures
        match p_comment(input@, 0) {
            Some((t, j)) => r matches Ok((rest, d)) && d@ == t && rest@ == input@.subrange(j, input@.len() as int),
            None => r is Err,
        },
{
    let cs = chars_of(input);
    match comment_at(&cs, 0) {
        Some((a, b, k)) => Ok((rest_of(input, &cs, k), input.substring_char(a, b))),
        None => Err(ParseError),
    }
}

/// The texts of string slices.
pub open spec fn str_texts(v: Seq<&str>) -> Seq<Seq<char>> {
    v.map_values(|x: &str| x@)
}

/// Parses comments, each followed by optional whitespace, and gives their
/// texts.
pub fn comment_doc_block(input: &str) -> (r: Result<(&str, Vec<&str>), ParseError>)
    ensures
        r matches Ok((rest, v)) && str_texts(v@) == p_doc_block(input@, 0).0
            && rest@ == input@.subrange(p_doc_block(input@, 0).1, input@.len() as int),
{
    let cs = chars_of(input);
    let (bounds, k) = doc_block_at(&cs, 0);
    let mut v: Vec<&str> = Vec::new();
    let mut m: usize = 0;
    while m < bounds.len()
        invariant
            m <= bounds@.len(),
            cs@ == input@,
            forall|x: int| 0 <= x < bounds@.len() ==> (#[trigger] bounds@[x]).0 <= bounds@[x].1 <= cs@.len(),
            str_texts(v@) == texts_at(cs@, bounds@.take(m as int)),
        decreases bounds@.len() - m,
    {
        let (a, b) = bounds[m];
        let ghost before = v@;
        v.push(input.substring_char(a, b));
        assert(str_texts(v@) =~= str_texts(before).push(input@.subrange(a as int, b as int)));
        assert(texts_at(cs@, bounds@.take(m + 1)) =~= texts_at(cs@, bounds@.take(m as int)).push(cs@.subrange(a as int, b as int)));
        m = m + 1;
    }
    assert(bounds@.take(bounds@.len() as int) =~= bounds@);
    Ok((rest_of(input, &cs, k), v))
}

/// Parses comments and gives their doc string: the texts that are not
/// empty, one per line, or none.
pub fn doc(input: &str) -> (r: Result<(&str, Option<String>), ParseError>)
    ensures
        r matches Ok((rest, d)) && opt_view(d) == doc_of(p_doc_block(input@, 0).0)
            && rest@ == input@.subrange(p_doc_block(input@, 0).1, input@.len() as int),
{
    let cs = chars_of(input);
    let (d, k) = doc_at(&cs, 0);
    Ok((rest_of(input, &cs, k), d))
}

/// Parses `true` or `false`.
pub fn bool(input: &str) -> (r: Result<(&str, bool), ParseError>)
    ensures
        match p_bool(input@, 0) {
            Some((b, j)) => r matches Ok((rest, v)) && v == b && rest@ == input@.subrange(j, input@.len() as int),
            None => r is Err,
        },
{
    let cs = chars_of(input);
    match bool_at(&cs, 0) {
        Some((b, k)) => Ok((rest_of(input, &cs, k), b)),
        None => Err(ParseError),
    }
}

/// Parses a complexity: levels separated by dots.
pub fn complexity(input: &str) -> (r: Result<(&str, Complexity), ParseError>)
    requires
    ensures
        match p_complexity(input@, 0) {
            Some((c, j)) => r matches Ok((rest, v)) && v@ == c && rest@ == input@.subrange(j, input@.len() as int),
            None => r is Err,
        },
{
    let cs = chars_of(input);
    match complexity_at(&cs, 0) {
        Some((v, k)) => match Complexity::new(v) {
            Ok(c) => Ok((rest_of(input, &cs, k), c)),
            Err(_) => Err(ParseError),
        },
        None => Err(ParseError),
    }
}

/// Parses a synchronicity.
pub fn synchronicity(input: &str) -> (r: Result<(&str, Synchronicity), ParseError>)
    ensures
        match p_synchronicity(input@, 0) {
            Some((x, j)) => r matches Ok((rest, v)) && v == x && rest@ == input@.subrange(j, input@.len() as int),
            None => r is Err,
        },
{
    let cs = chars_of(input);
    match synchronicity_at(&cs, 0) {
        Some((x, k)) => Ok((rest_of(input, &cs, k), x)),
        None => Err(ParseError),
    }
}

/// Parses a direction.
pub fn direction(input: &str) -> (r: Result<(&str, Direction), ParseError>)
    ensures
        match p_direction(input@, 0) {
            Some((x, j)) => r matches Ok((rest, v)) && v == x && rest@ == input@.subrange(j, input@.len() as int),
            None => r is Err,
        },
{
    let cs = chars_of(input);
    match direction_at(&cs, 0) {
        Some((x, k)) => Ok((rest_of(input, &cs, k), x)),
        None => Err(ParseError),
    }
}

/// Parses an interface mode.
pub fn mode(input: &str) -> (r: Result<(&str, Mode), ParseError>)
    ensures
        match p_mode(input@, 0) {
            Some((x, j)) => r matches Ok((rest, v)) && v == x && rest@ == input@.subrange(j, input@.len() as int),
            None => r is Err,
        },
{
    let cs = chars_of(input);
    match mode_at(&cs, 0) {
        Some((x, k)) => Ok((rest_of(input, &cs, k), x)),
        None => Err(ParseError),
    }
}

/// Parses `Null`.
pub fn null(input: &str) -> (r: Result<(&str, LogicalStreamType), ParseError>)
    ensures
        match p_null(input@, 0) {
            Some((m, j)) => r matches Ok((rest, t)) && t@ == m && rest@ == input@.subrange(j, input@.len() as int),
            None => r is Err,
        },
{
    let cs = chars_of(input);
    match null_at(&cs, 0) {
        Some(k) => Ok((rest_of(input, &cs, k), LogicalStreamType::Null)),
        None => Err(ParseError),
    }
}

/// Parses `Bits<` and a positive number of bits, then `>`.
pub fn bits(input: &str) -> (r: Result<(&str, LogicalStreamType), ParseError>)
    requires
    ensures
        match p_bits(input@, 0) {
            Some((m, j)) => r matches Ok((rest, t)) && t@ == m && rest@ == input@.subrange(j, input@.len() as int),
            None => r is Err,
        },
{
    let cs = chars_of(input);
    match bits_at(&cs, 0) {
        Some((n, k)) => Ok((rest_of(input, &cs, k), LogicalStreamType::Bits(n))),
        None => Err(ParseError),
    }
}

/// Parses a logical stream type.
pub fn logical_stream_type(input: &str) -> (r: Result<(&str, LogicalStreamType), ParseError>)
    requires
    ensures
        match p_lst(input@, 0) {
            Some((m, j)) => r matches Ok((rest, t)) && t@ == m && rest@ == input@.subrange(j, input@.len() as int),
            None => r is Err,
        },
{
    let cs = chars_of(input);
    match lst_at(&cs, 0) {
        Some((t, k)) => Ok((rest_of(input, &cs, k), t)),
        None => Err(ParseError),
    }
}

/// Parses a group: `Group<`, fields, then `>`.
pub fn group(input: &str) -> (r: Result<(&str, LogicalStreamType), ParseError>)
    requires
    ensures
        match p_group_or_union(input@, 0, true) {
            Some((m, j)) => r matches Ok((rest, t)) && t@ == m && rest@ == input@.subrange(j, input@.len() as int),
            None => r is Err,
        },
{
    let cs = chars_of(input);
    match group_or_union_at(&cs, 0, true) {
        Some((t, k)) => Ok((rest_of(input, &cs, k), t)),
        None => Err(ParseError),
    }
}

/// Parses a union: `Union<`, fields, then `>`.
pub fn union(input: &str) -> (r: Result<(&str, LogicalStreamType), ParseError>)
    requires
    ensures
        match p_group_or_union(input@, 0, false) {
            Some((m, j)) => r matches Ok((rest, t)) && t@ == m && rest@ == input@.subrange(j, input@.len() as int),
            None => r is Err,
        },
{
    let cs = chars_of(input);
    match group_or_union_at(&cs, 0, false) {
        Some((t, k)) => Ok((rest_of(input, &cs, k), t)),
        None => Err(ParseError),
    }
}

/// Parses a stream: `Stream<`, a data type, optionally options, then `>`.
pub fn stream(input: &str) -> (r: Result<(&str, LogicalStreamType), ParseError>)
    requires
    ensures
        match p_stream(input@, 0) {
            Some((m, j)) => r matches Ok((rest, t)) && t@ == m && rest@ == input@.subrange(j, input@.len() as int),
            None => r is Err,
        },
{
    let cs = chars_of(input);
    match stream_at(&cs, 0) {
        Some((t, k)) => Ok((rest_of(input, &cs, k), t)),
        None => Err(ParseError),
    }
}

/// Parses an interface: a doc string, a name, `:`, a mode and a type.
pub fn interface(input: &str) -> (r: Result<(&str, Interface), ParseError>)
    requires
    ensures
        match p_interface(input@, 0) {
            Some((m, j)) => r matches Ok((rest, f)) && f@ == m && rest@ == input@.subrange(j, input@.len() as int),
            None => r is Err,
        },
{
    let cs = chars_of(input);
    match interface_at(&cs, 0) {
        Some((f, k)) => Ok((rest_of(input, &cs, k), f)),
        None => Err(ParseError),
    }
}

/// Parses a streamlet: a doc string, `Streamlet`, a name, and interfaces
/// between parentheses.
pub fn streamlet(input: &str) -> (r: Result<(&str, Streamlet), ParseError>)
    requires
    ensures
        match p_streamlet(input@, 0) {
            Some((m, j)) => r matches Ok((rest, f)) && f@ == m && rest@ == input@.subrange(j, input@.len() as int),
            None => r is Err,
        },
{
    let cs = chars_of(input);
    match streamlet_at(&cs, 0) {
        Some((f, k)) => Ok((rest_of(input, &cs, k), f)),
        None => Err(ParseError),
    }
}

/// Parses optional whitespace, then streamlets separated by whitespace.
pub fn list_of_streamlets(input: &str) -> (r: Result<(&str, Vec<Streamlet>), ParseError>)
    requires
    ensures
        r matches Ok((rest, v)) && streamlet_models(v@) == p_streamlet_list(input@).0
            && rest@ == input@.subrange(p_streamlet_list(input@).1, input@.len() as int),
{
    let cs = chars_of(input);
    let (v, k) = streamlets_at(&cs);
    Ok((rest_of(input, &cs, k), v))
}

} // verus!
