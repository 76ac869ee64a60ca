//! The recursive-descent parser: source text to a sequence of elements.
//!
//! The grammar is scanned left to right over the character stream,
//! depth-tracked for nesting: string literals in double quotes become arrays
//! of characters, single-quoted characters become character literals, `$`
//! opens a variable name, square brackets delimit nested arrays, and any
//! other run of characters up to a delimiter is a word, classified against
//! the function catalog and the literal forms.

use vstd::prelude::*;
use crate::chars::{chars_to_string, copy_range, eq_str, str_chars};
use crate::element::{deep_seq, lemma_deep_seq, Element, Val};
use crate::fbits;
use crate::function::{op_of_word, Function, Op};
use crate::numbers;
use crate::numbers::int_token;

verus! {

/// A parse-time failure.
#[derive(Debug, PartialEq)]
pub enum ParserError {
    InvalidToken(String),
    UnterminatedArray,
    UnterminatedString,
    NotInsideArray,
    UnknownCharacter,
    EndOfInput,
}

/// Mathematical model of a [`ParserError`].
pub enum PErr {
    InvalidToken(Seq<char>),
    UnterminatedArray,
    UnterminatedString,
    NotInsideArray,
    UnknownCharacter,
    EndOfInput,
}

/// The model of a parse-time failure.
pub open spec fn perr_v(e: ParserError) -> PErr {
    match e {
        ParserError::InvalidToken(s) => PErr::InvalidToken(s@),
        ParserError::UnterminatedArray => PErr::UnterminatedArray,
        ParserError::UnterminatedString => PErr::UnterminatedString,
        ParserError::NotInsideArray => PErr::NotInsideArray,
        ParserError::UnknownCharacter => PErr::UnknownCharacter,
        ParserError::EndOfInput => PErr::EndOfInput,
    }
}

/// Whether `c` may appear in a variable name: a letter, a digit or an
/// underscore.
pub open spec fn is_name_char(c: char) -> bool {
    (97 <= c as u32 <= 122) || (65 <= c as u32 <= 90) || (48 <= c as u32 <= 57) || c as u32 == 95
}

/// Whether `c` ends a word: whitespace or one of the characters that open a
/// different construct.
pub open spec fn is_delim(c: char) -> bool {
    c == ' ' || c == '\t' || c == '\n' || c == '\\' || c == '[' || c == ']' || c == '"' || c == '$'
        || c == '\''
}

/// The first position at or after `i` whose character is not a name
/// character.
pub open spec fn name_end(cs: Seq<char>, i: int) -> int
    decreases cs.len() - i,
{
    if 0 <= i < cs.len() && is_name_char(cs[i]) {
        name_end(cs, i + 1)
    } else {
        i
    }
}

/// The first position at or after `i` whose character is a delimiter.
pub open spec fn word_end(cs: Seq<char>, i: int) -> int
    decreases cs.len() - i,
{
    if 0 <= i < cs.len() && !is_delim(cs[i]) {
        word_end(cs, i + 1)
    } else {
        i
    }
}

/// The position of the unescaped closing quote of a string literal whose
/// contents start at `i`, or `None` if the input ends first. A backslash
/// escapes the character after it; both stay part of the contents.
pub open spec fn string_end(cs: Seq<char>, i: int, escaped: bool) -> Option<int>
    decreases cs.len() - i,
{
    if !(0 <= i < cs.len()) {
        None
    } else if escaped {
        string_end(cs, i + 1, false)
    } else if cs[i] == '\\' {
        string_end(cs, i + 1, true)
    } else if cs[i] == '"' {
        Some(i)
    } else {
        string_end(cs, i + 1, false)
    }
}

proof fn lemma_name_end(cs: Seq<char>, i: int)
    requires
        0 <= i <= cs.len(),
    ensures
        i <= name_end(cs, i) <= cs.len(),
    decreases cs.len() - i,
{
    if i < cs.len() && is_name_char(cs[i]) {
        lemma_name_end(cs, i + 1);
    }
}

proof fn lemma_word_end(cs: Seq<char>, i: int)
    requires
        0 <= i <= cs.len(),
    ensures
        i <= word_end(cs, i) <= cs.len(),
    decreases cs.len() - i,
{
    if i < cs.len() && !is_delim(cs[i]) {
        lemma_word_end(cs, i + 1);
    }
}

proof fn lemma_string_end(cs: Seq<char>, i: int, escaped: bool)
    requires
        0 <= i <= cs.len(),
    ensures
        match string_end(cs, i, escaped) {
            Some(e) => i <= e < cs.len(),
            None => true,
        },
    decreases cs.len() - i,
{
    if i < cs.len() {
        lemma_string_end(cs, i + 1, false);
        lemma_string_end(cs, i + 1, true);
    }
}

/// The element a word token denotes: a catalog function under its name or
/// an alias, a boolean, an integer, or a floating-point number; `None` if it
/// is none of these.
pub open spec fn word_val(w: Seq<char>) -> Option<Val> {
    match op_of_word(w) {
        Some(op) => Some(Val::Func(op)),
        None => if w == "true"@ {
            Some(Val::Bool(true))
        } else if w == "false"@ {
            Some(Val::Bool(false))
        } else {
            match int_token(w) {
                Some(x) => Some(Val::Int(x)),
                None => match fbits::float_of_text(w) {
                    Some(bits) => Some(Val::Float(bits)),
                    None => None,
                },
            }
        },
    }
}

/// The characters of `s` as character elements.
pub open spec fn chars_vals(s: Seq<char>) -> Seq<Val>
    decreases s.len(),
{
    if s.len() == 0 {
        Seq::empty()
    } else {
        chars_vals(s.drop_last()).push(Val::Char(s.last()))
    }
}

/// One unfolding of `chars_vals` on a non-empty sequence, pointwise.
proof fn lemma_chars_vals_step(s: Seq<char>, c: char, i: int)
    requires
        s.len() > 0,
        c == s.last(),
        0 <= i < s.len(),
        chars_vals(s.drop_last()).len() == s.len() - 1,
    ensures
        i < s.len() - 1 ==> chars_vals(s)[i] == chars_vals(s.drop_last())[i],
        i == s.len() - 1 ==> chars_vals(s)[i] == Val::Char(c),
        chars_vals(s).len() == s.len(),
{
    let d = s.drop_last();
    let x = Val::Char(c);
    assert(chars_vals(s) == chars_vals(d).push(x));
    assert(chars_vals(d).push(x).len() == chars_vals(d).len() + 1);
    if i < s.len() - 1 {
        assert(chars_vals(d).push(x)[i] == chars_vals(d)[i]);
    } else {
        assert(chars_vals(d).push(x)[i] == x);
    }
}

/// `chars_vals` is the pointwise character model of its argument.
pub proof fn lemma_chars_vals(s: Seq<char>)
    ensures
        chars_vals(s).len() == s.len(),
        forall|i: int| 0 <= i < s.len() ==> #[trigger] chars_vals(s)[i] == Val::Char(s[i]),
    decreases s.len(),
{
    if s.len() > 0 {
        let d = s.drop_last();
        lemma_chars_vals(d);
        lemma_chars_vals_step(s, s.last(), 0);
        assert forall|i: int| 0 <= i < s.len() implies #[trigger] chars_vals(s)[i] == Val::Char(
            s[i],
        ) by {
            lemma_chars_vals_step(s, s.last(), i);
            if i < s.len() - 1 {
                assert(d[i] == s[i]);
                assert(chars_vals(d)[i] == Val::Char(d[i]));
            } else {
                assert(s.last() == s[i]);
            }
        }
    }
}

/// Prepends one element to the element list of a successful parse.
pub open spec fn cons_elem(v: Val, r: Result<(Seq<Val>, int), PErr>) -> Result<
    (Seq<Val>, int),
    PErr,
> {
    match r {
        Ok((s, e)) => Ok((seq![v] + s, e)),
        Err(x) => Err(x),
    }
}

/// The parse of `cs` from position `i` at bracket depth `depth`: the
/// elements up to the closing bracket of the current array (or the end of
/// the input at depth zero), together with the position just after them.
pub open spec fn parse_at(cs: Seq<char>, i: int, depth: int) -> Result<(Seq<Val>, int), PErr>
    decreases cs.len() - i,
    via parse_at_decreases
{
    if !(0 <= i < cs.len()) {
        if depth > 0 {
            Err(PErr::UnterminatedArray)
        } else {
            Ok((seq![], i))
        }
    } else {
        let c = cs[i];
        if c == ' ' || c == '\t' || c == '\n' {
            parse_at(cs, i + 1, depth)
        } else if c == '"' {
            match string_end(cs, i + 1, false) {
                None => Err(PErr::UnterminatedString),
                Some(e) => cons_elem(
                    Val::Arr(chars_vals(cs.subrange(i + 1, e))),
                    parse_at(cs, e + 1, depth),
                ),
            }
        } else if c == '\'' {
            if i + 2 >= cs.len() {
                Err(PErr::EndOfInput)
            } else if cs[i + 2] != '\'' {
                Err(PErr::InvalidToken(cs.subrange(i, i + 3)))
            } else {
                cons_elem(Val::Char(cs[i + 1]), parse_at(cs, i + 3, depth))
            }
        } else if c == '$' {
            let e = name_end(cs, i + 1);
            cons_elem(Val::Var(cs.subrange(i + 1, e)), parse_at(cs, e, depth))
        } else if c == '[' {
            match parse_at(cs, i + 1, depth + 1) {
                Err(p) => Err(p),
                Ok((sub, j)) => if j <= i + 1 || j > cs.len() {
                    // The parser never returns such a position; the branch
                    // keeps the recursion well founded.
                    Err(PErr::UnterminatedArray)
                } else {
                    cons_elem(Val::Arr(sub), parse_at(cs, j, depth))
                },
            }
        } else if c == ']' {
            if depth == 0 {
                Err(PErr::NotInsideArray)
            } else {
                Ok((seq![], i + 1))
            }
        } else if c == '\\' {
            // A backslash outside a string delimits an empty word, which
            // names nothing.
            Err(PErr::InvalidToken(Seq::empty()))
        } else {
            let e = word_end(cs, i);
            let w = cs.subrange(i, e);
            match word_val(w) {
                Some(v) => cons_elem(v, parse_at(cs, e, depth)),
                None => Err(PErr::InvalidToken(w)),
            }
        }
    }
}

#[via_fn]
proof fn parse_at_decreases(cs: Seq<char>, i: int, depth: int) {
    if 0 <= i < cs.len() {
        let c = cs[i];
        if c == '"' {
            lemma_string_end(cs, i + 1, false);
        } else if c == '$' {
            lemma_name_end(cs, i + 1);
        } else if !(c == ' ' || c == '\t' || c == '\n' || c == '\'' || c == '[' || c == ']' || c
            == '\\') {
            lemma_word_end(cs, i + 1);
            assert(!is_delim(cs[i]));
            assert(word_end(cs, i) == word_end(cs, i + 1));
        }
    }
}

/// The parse of a whole text: its elements, or the first error.
pub open spec fn parse_spec(text: Seq<char>) -> Result<Seq<Val>, PErr> {
    match parse_at(text, 0, 0) {
        Ok((vals, _)) => Ok(vals),
        Err(p) => Err(p),
    }
}

/// Whether the elements parsed so far, followed by whatever `parse_at`
/// yields from position `i`, make up exactly the parse from position `i0`.
pub open spec fn parse_continues(
    cs: Seq<char>,
    i0: int,
    depth: int,
    acc: Seq<Val>,
    i: int,
) -> bool {
    match parse_at(cs, i, depth) {
        Ok((vals, e)) => parse_at(cs, i0, depth) == Ok::<(Seq<Val>, int), PErr>((acc + vals, e)),
        Err(p) => parse_at(cs, i0, depth) == Err::<(Seq<Val>, int), PErr>(p),
    }
}

/// The first position at or after `from` whose character is not a name
/// character.
fn scan_name(chars: &Vec<char>, from: usize) -> (e: usize)
    requires
        from <= chars@.len(),
    ensures
        from <= e <= chars@.len(),
        e == name_end(chars@, from as int),
    decreases chars@.len() - from,
{
    let mut i = from;
    while i < chars.len()
        invariant
            from <= i <= chars@.len(),
            name_end(chars@, from as int) == name_end(chars@, i as int),
        decreases chars@.len() - i,
    {
        let u = chars[i] as u32;
        if !((97 <= u && u <= 122) || (65 <= u && u <= 90) || (48 <= u && u <= 57) || u == 95) {
            return i;
        }
        i = i + 1;
    }
    i
}

/// The first position at or after `from` whose character is a delimiter.
fn scan_word(chars: &Vec<char>, from: usize) -> (e: usize)
    requires
        from <= chars@.len(),
    ensures
        from <= e <= chars@.len(),
        e == word_end(chars@, from as int),
        from < chars@.len() && !is_delim(chars@[from as int]) ==> e > from,
    decreases chars@.len() - from,
{
    let mut i = from;
    while i < chars.len()
        invariant
            from <= i <= chars@.len(),
            word_end(chars@, from as int) == word_end(chars@, i as int),
        decreases chars@.len() - i,
    {
        let c = chars[i];
        if c == ' ' || c == '\t' || c == '\n' || c == '\\' || c == '[' || c == ']' || c == '"' || c
            == '$' || c == '\'' {
            return i;
        }
        i = i + 1;
    }
    i
}

/// The position of the unescaped closing quote, scanning from `from`.
fn scan_string(chars: &Vec<char>, from: usize) -> (r: Option<usize>)
    requires
        from <= chars@.len(),
    ensures
        match r {
            Some(e) => Some(e as int) == string_end(chars@, from as int, false) && from <= e
                < chars@.len(),
            None => string_end(chars@, from as int, false) is None,
        },
{
    let mut i = from;
    let mut escaped = false;
    while i < chars.len()
        invariant
            from <= i <= chars@.len(),
            string_end(chars@, from as int, false) == string_end(chars@, i as int, escaped),
        decreases chars@.len() - i,
    {
        let c = chars[i];
        if escaped {
            escaped = false;
            i = i + 1;
        } else if c == '\\' {
            escaped = true;
            i = i + 1;
        } else if c == '"' {
            return Some(i);
        } else {
            i = i + 1;
        }
    }
    None
}

/// The catalog entry a word names, if any.
fn word_to_op(token: &Vec<char>) -> (r: Option<Function>)
    ensures
        match r {
            Some(f) => op_of_word(token@) == Some(f.op),
            None => op_of_word(token@) is None,
        },
{
    if eq_str(token, "add") || eq_str(token, "+") {
        Some(Function { op: Op::Add })
    } else if eq_str(token, "subtract") || eq_str(token, "-") {
        Some(Function { op: Op::Subtract })
    } else if eq_str(token, "multiply") || eq_str(token, "*") {
        Some(Function { op: Op::Multiply })
    } else if eq_str(token, "divide") || eq_str(token, "/") {
        Some(Function { op: Op::Divide })
    } else if eq_str(token, "modulo") || eq_str(token, "%") {
        Some(Function { op: Op::Modulo })
    } else if eq_str(token, "less") || eq_str(token, "<") {
        Some(Function { op: Op::Less })
    } else if eq_str(token, "less_equal") || eq_str(token, "<=") {
        Some(Function { op: Op::LessEqual })
    } else if eq_str(token, "equal") || eq_str(token, "==") {
        Some(Function { op: Op::Equal })
    } else if eq_str(token, "greater") || eq_str(token, ">") {
        Some(Function { op: Op::Greater })
    } else if eq_str(token, "greater_equal") || eq_str(token, ">=") {
        Some(Function { op: Op::GreaterEqual })
    } else if eq_str(token, "pop") {
        Some(Function { op: Op::Pop })
    } else if eq_str(token, "clear") {
        Some(Function { op: Op::Clear })
    } else if eq_str(token, "rotate") {
        Some(Function { op: Op::Rotate })
    } else if eq_str(token, "copy") {
        Some(Function { op: Op::Copy })
    } else if eq_str(token, "assign") || eq_str(token, "=") {
        Some(Function { op: Op::Assign })
    } else if eq_str(token, "if") {
        Some(Function { op: Op::If })
    } else if eq_str(token, "eval") || eq_str(token, ".") {
        Some(Function { op: Op::Eval })
    } else if eq_str(token, "repeat") {
        Some(Function { op: Op::Repeat })
    } else if eq_str(token, "repeat_eval") || eq_str(token, "repeat.") {
        Some(Function { op: Op::RepeatEval })
    } else if eq_str(token, "append") {
        Some(Function { op: Op::Append })
    } else if eq_str(token, "concatenate") || eq_str(token, "concat") || eq_str(token, "++") {
        Some(Function { op: Op::Concatenate })
    } else if eq_str(token, "make_array") {
        Some(Function { op: Op::MakeArray })
    } else if eq_str(token, "read") {
        Some(Function { op: Op::Read })
    } else {
        None
    }
}

/// The element a word token denotes, if any: catalog lookup first, then the
/// boolean spellings, then integer before floating point.
fn classify_word(token: &Vec<char>) -> (r: Option<Element>)
    ensures
        match r {
            Some(el) => word_val(token@) == Some(el.val()),
            None => word_val(token@) is None,
        },
{
    if let Some(f) = word_to_op(token) {
        Some(Element::Function(f))
    } else if eq_str(token, "true") {
        Some(Element::Boolean(true))
    } else if eq_str(token, "false") {
        Some(Element::Boolean(false))
    } else if let Some(x) = numbers::parse_int(token) {
        Some(Element::Integer(x))
    } else if let Some(bits) = fbits::f_parse(token) {
        Some(Element::Float(bits))
    } else {
        None
    }
}

/// A character element.
fn mk_char(c: char) -> (r: Element)
    ensures
        r == Element::Char(c),
{
    Element::Char(c)
}

/// The characters of `chars[start..end]` as character elements.
fn char_elements(chars: &Vec<char>, start: usize, end: usize) -> (r: Vec<Element>)
    requires
        start <= end <= chars@.len(),
    ensures
        deep_seq(r@) == chars_vals(chars@.subrange(start as int, end as int)),
{
    let mut r: Vec<Element> = Vec::new();
    let mut i = start;
    while i < end
        invariant
            start <= i <= end <= chars@.len(),
            r@.len() == i - start,
            forall|k: int| 0 <= k < r@.len() ==> r@[k] == Element::Char(chars@[start + k]),
        decreases end - i,
    {
        let ghost r0 = r@;
        r.push(mk_char(chars[i]));
        i = i + 1;
        proof {
            assert(r@.len() == i - start);
            assert forall|k: int| 0 <= k < r@.len() implies r@[k] == Element::Char(
                chars@[start + k],
            ) by {
                if k < r@.len() - 1 {
                    assert(r@[k] == r0[k]);
                } else {
                    assert(r@[k] == Element::Char(chars@[i - 1]));
                }
            }
        }
    }
    proof {
        lemma_deep_seq(r@);
        let ghost sub = chars@.subrange(start as int, end as int);
        lemma_chars_vals(sub);
        assert forall|k: int| 0 <= k < r@.len() implies deep_seq(r@)[k] == chars_vals(sub)[k] by {
            assert(deep_seq(r@)[k] == r@[k].val());
            assert(r@[k] == Element::Char(chars@[start + k]));
            assert(sub[k] == chars@[start + k]);
            assert(chars_vals(sub)[k] == Val::Char(sub[k]));
        }
        assert(deep_seq(r@) =~= chars_vals(sub));
    }
    r
}

/// Parses elements from `index` on, at the given bracket depth, until the
/// matching closing bracket (or the end of the input at depth zero).
fn parse_chars(chars: &Vec<char>, depth: usize, index: usize) -> (r: Result<
    (Vec<Element>, usize),
    ParserError,
>)
    requires
        index <= chars@.len(),
        depth <= index,
    ensures
        match r {
            Ok((v, e)) => parse_at(chars@, index as int, depth as int) == Ok::<
                (Seq<Val>, int),
                PErr,
            >((deep_seq(v@), e as int)) && index <= e <= chars@.len() && (depth > 0 ==> e
                > index),
            Err(p) => parse_at(chars@, index as int, depth as int) == Err::<
                (Seq<Val>, int),
                PErr,
            >(perr_v(p)),
        },
    decreases chars@.len() - index,
{
    let ghost cs = chars@;
    let mut elements: Vec<Element> = Vec::new();
    let mut idx = index;
    proof {
        lemma_deep_seq(elements@);
        assert(deep_seq(elements@) + parse_at(cs, idx as int, depth as int)->Ok_0.0 =~= parse_at(
            cs,
            idx as int,
            depth as int,
        )->Ok_0.0);
    }
    while idx < chars.len()
        invariant
            index <= idx <= cs.len(),
            depth <= idx,
            cs == chars@,
            parse_continues(cs, index as int, depth as int, deep_seq(elements@), idx as int),
        decreases cs.len() - idx,
    {
        let c = chars[idx];
        let ghost acc = deep_seq(elements@);
        if c == ' ' || c == '\t' || c == '\n' {
            idx = idx + 1;
        } else if c == '"' {
            match scan_string(chars, idx + 1) {
                None => {
                    return Err(ParserError::UnterminatedString);
                },
                Some(e) => {
                    let items = char_elements(chars, idx + 1, e);
                    let el = Element::Array(items);
                    proof {
                        lemma_push_elem(elements@, el, acc);
                    }
                    elements.push(el);
                    idx = e + 1;
                },
            }
        } else if c == '\'' {
            if chars.len() - idx <= 2 {
                return Err(ParserError::EndOfInput);
            } else if chars[idx + 2] != '\'' {
                let token = copy_range(chars, idx, idx + 3);
                return Err(ParserError::InvalidToken(chars_to_string(&token)));
            } else {
                let el = mk_char(chars[idx + 1]);
                proof {
                    lemma_push_elem(elements@, el, acc);
                }
                elements.push(el);
                idx = idx + 3;
            }
        } else if c == '$' {
            let e = scan_name(chars, idx + 1);
            let name_vec = copy_range(chars, idx + 1, e);
            let el = Element::Variable(chars_to_string(&name_vec));
            proof {
                lemma_push_elem(elements@, el, acc);
            }
            elements.push(el);
            idx = e;
        } else if c == '[' {
            match parse_chars(chars, depth + 1, idx + 1) {
                Err(p) => {
                    return Err(p);
                },
                Ok((sub, j)) => {
                    let el = Element::Array(sub);
                    proof {
                        lemma_push_elem(elements@, el, acc);
                    }
                    elements.push(el);
                    idx = j;
                },
            }
        } else if c == ']' {
            if depth == 0 {
                return Err(ParserError::NotInsideArray);
            } else {
                proof {
                    assert(acc + Seq::<Val>::empty() =~= acc);
                }
                return Ok((elements, idx + 1));
            }
        } else if c == '\\' {
            let empty: Vec<char> = Vec::new();
            return Err(ParserError::InvalidToken(chars_to_string(&empty)));
        } else {
            let e = scan_word(chars, idx);
            let token = copy_range(chars, idx, e);
            match classify_word(&token) {
                Some(el) => {
                    proof {
                        lemma_push_elem(elements@, el, acc);
                    }
                    elements.push(el);
                    idx = e;
                },
                None => {
                    return Err(ParserError::InvalidToken(chars_to_string(&token)));
                },
            }
        }
    }
    if depth > 0 {
        Err(ParserError::UnterminatedArray)
    } else {
        proof {
            assert(deep_seq(elements@) + Seq::<Val>::empty() =~= deep_seq(elements@));
        }
        Ok((elements, idx))
    }
}

/// Appending one element to the accumulator matches prepending its model in
/// the spec.
proof fn lemma_push_elem(s: Seq<Element>, el: Element, acc: Seq<Val>)
    requires
        acc == deep_seq(s),
    ensures
        deep_seq(s.push(el)) == acc.push(el.val()),
        forall|rest: Seq<Val>| acc + (seq![el.val()] + rest) =~= #[trigger] (acc.push(el.val())
            + rest),
{
    assert(s.push(el).drop_last() =~= s);
    assert(deep_seq(s.push(el)) == deep_seq(s).push(el.val()));
    assert forall|rest: Seq<Val>| acc + (seq![el.val()] + rest) =~= #[trigger] (acc.push(el.val())
        + rest) by {
    }
}

/// Parses a whole source text into its elements.
///
/// Returns exactly the element sequence the grammar gives the text, or the
/// first error: an unknown word is an invalid token, an unclosed bracket an
/// unterminated array, an unmatched closing bracket a bracket outside any
/// array, and an unclosed quote an unterminated string.
pub fn parse(input: &str) -> (r: Result<Vec<Element>, ParserError>)
    ensures
        match r {
            Ok(v) => parse_spec(input@) == Ok::<Seq<Val>, PErr>(deep_seq(v@)),
            Err(p) => parse_spec(input@) == Err::<Seq<Val>, PErr>(perr_v(p)),
        },
{
    let chars = str_chars(input);
    match parse_chars(&chars, 0, 0) {
        Ok((v, _)) => Ok(v),
        Err(p) => Err(p),
    }
}

} // verus!
