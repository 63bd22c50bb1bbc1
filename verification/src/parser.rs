//! Recursive-descent parser for the `whkdrc` configuration grammar.
//!
//! The grammar is line/block oriented but whitespace- and comment-tolerant:
//! `#` starts a comment that runs to the end of the line, and blank lines or
//! comments may stand between any two tokens.  A document is an optional
//! `.shell` directive, zero or more process-scoped blocks
//! (`keys [ process : command ... ]`), and one or more direct bindings
//! (`[mode >] keys : command [; mode]` or `[mode >] keys ; mode`), in that
//! order.  A direct binding's command runs to the end of its line, to a
//! comment, or to the `;` of a mode-change clause; a process-scoped pair's
//! command runs to the end of its line or to a comment (so it may contain
//! `;` and `]`, and the block closes only at a pair boundary).  Commands are
//! trimmed of surrounding spaces.  Any input that does not match the grammar
//! is rejected with an error locating the offending position; no partial
//! document is returned.

use vstd::prelude::*;

use crate::scan::chars_eq;
use crate::scan::chars_of;
use crate::scan::col_no;
use crate::scan::digit;
use crate::scan::ident_char;
use crate::scan::ident_start;
use crate::scan::is_digit;
use crate::scan::is_ident_char;
use crate::scan::is_ident_start;
use crate::scan::is_ws;
use crate::scan::line_col;
use crate::scan::line_no;
use crate::scan::slice_chars;
use crate::scan::string_of;
use crate::scan::trim;
use crate::scan::trim_spec;
use crate::scan::ws;
use crate::whkdrc::HotkeyBinding;
use crate::whkdrc::Shell;
use crate::whkdrc::Whkdrc;

verus! {

/// Why a document was rejected.
#[derive(Debug, Clone, Copy, PartialEq, Eq, Structural)]
pub enum ParseErrorKind {
    /// `.shell` not followed by one of `pwsh`, `powershell`, `cmd`.
    ExpectedShellName,
    /// A key token (identifier or digits) was expected.
    ExpectedKey,
    /// A binding's keys were not followed by `:` or `;`.
    ExpectedAction,
    /// `;` was not followed by a mode name.
    ExpectedModeName,
    /// A process-scoped pair was expected inside `[ ... ]`.
    ExpectedProcessName,
    /// A process name was not followed by `:`.
    ExpectedColon,
    /// A `[` block was never closed by `]`.
    UnclosedBlock,
    /// A process-scoped block stood after a direct binding or under a mode.
    UnexpectedBlock,
    /// The document holds no direct binding.
    NoBindings,
    /// The document is too large to address by position (a machine limit).
    TooLong,
}

/// A syntax error, locating the offending position (1-based line and column).
#[derive(Debug, Clone, Copy, PartialEq, Eq, Structural)]
pub struct ParseError {
    pub kind: ParseErrorKind,
    pub pos: usize,
    pub line: usize,
    pub col: usize,
}

/// A `ParseError` whose line and column agree with its position in `s`.
pub open spec fn located(e: ParseError, s: Seq<char>) -> bool {
    &&& e.pos <= s.len()
    &&& e.line == line_no(s, e.pos as int)
    &&& e.col == col_no(s, e.pos as int)
}

fn err_at(v: &Vec<char>, pos: usize, kind: ParseErrorKind) -> (e: ParseError)
    requires
        pos <= v@.len() < usize::MAX,
    ensures
        located(e, v@),
        e.kind == kind,
        e.pos == pos,
{
    let (line, col) = line_col(v, pos);
    ParseError { kind, pos, line, col }
}

/// Position of the next character after `i` that neither is whitespace nor
/// stands inside a `#` comment.
pub(crate) fn skip_blank(v: &Vec<char>, i: usize) -> (j: usize)
    requires
        i <= v@.len(),
    ensures
        i <= j <= v@.len(),
        j < v@.len() ==> !is_ws(v@[j as int]) && v@[j as int] != '#',
        j == spec_skip_blank(v@, i as int, false),
{
    let mut j: usize = i;
    while j < v.len()
        invariant
            i <= j <= v@.len(),
            spec_skip_blank(v@, i as int, false) == spec_skip_blank(v@, j as int, false),
        decreases v@.len() - j,
    {
        let c = v[j];
        if ws(c) {
            j = j + 1;
        } else if c == '#' {
            let ghost j_entry = j as int;
            j = j + 1;
            while j < v.len() && v[j] != '\n'
                invariant
                    i <= j_entry < j <= v@.len(),
                    spec_skip_blank(v@, i as int, false) == spec_skip_blank(v@, j as int, true),
                decreases v@.len() - j,
            {
                j = j + 1;
            }
            proof {
                if j < v@.len() {
                    assert(spec_skip_blank(v@, j as int, true) == spec_skip_blank(
                        v@,
                        j as int,
                        false,
                    ));
                }
            }
        } else {
            return j;
        }
    }
    j
}

/// Scans a maximal identifier (`[A-Za-z_][A-Za-z0-9_]*`) starting at `i`.
pub(crate) fn scan_ident(v: &Vec<char>, i: usize) -> (r: Option<(usize, Vec<char>)>)
    requires
        i <= v@.len(),
    ensures
        match r {
            Some((j, tok)) => {
                &&& i < j <= v@.len()
                &&& tok@ == v@.subrange(i as int, j as int)
                &&& is_ident_start(v@[i as int])
                &&& forall|k: int| i <= k < j ==> is_ident_char(#[trigger] v@[k])
                &&& (j == v@.len() || !is_ident_char(v@[j as int]))
                &&& spec_scan_ident(v@, i as int) == Some((j as int, tok@))
            },
            None => {
                &&& (i == v@.len() || !is_ident_start(v@[i as int]))
                &&& spec_scan_ident(v@, i as int) is None
            },
        },
{
    if i == v.len() || !ident_start(v[i]) {
        return None;
    }
    let mut j: usize = i + 1;
    while j < v.len() && ident_char(v[j])
        invariant
            i < j <= v@.len(),
            forall|k: int| i <= k < j ==> is_ident_char(#[trigger] v@[k]),
            is_ident_start(v@[i as int]),
            spec_ident_end(v@, i + 1) == spec_ident_end(v@, j as int),
        decreases v@.len() - j,
    {
        j = j + 1;
    }
    let tok = slice_chars(v, i, j);
    Some((j, tok))
}

/// Scans a maximal run of decimal digits starting at `i`.
pub(crate) fn scan_number(v: &Vec<char>, i: usize) -> (r: Option<(usize, Vec<char>)>)
    requires
        i <= v@.len(),
    ensures
        match r {
            Some((j, tok)) => {
                &&& i < j <= v@.len()
                &&& tok@ == v@.subrange(i as int, j as int)
                &&& forall|k: int| i <= k < j ==> is_digit(#[trigger] v@[k])
                &&& spec_scan_number(v@, i as int) == Some((j as int, tok@))
            },
            None => {
                &&& (i == v@.len() || !is_digit(v@[i as int]))
                &&& spec_scan_number(v@, i as int) is None
            },
        },
{
    if i == v.len() || !digit(v[i]) {
        return None;
    }
    let mut j: usize = i + 1;
    while j < v.len() && digit(v[j])
        invariant
            i < j <= v@.len(),
            forall|k: int| i <= k < j ==> is_digit(#[trigger] v@[k]),
            spec_digits_end(v@, i + 1) == spec_digits_end(v@, j as int),
        decreases v@.len() - j,
    {
        j = j + 1;
    }
    let tok = slice_chars(v, i, j);
    Some((j, tok))
}

/// A key token is an identifier or a run of digits.
pub open spec fn is_key_start(c: char) -> bool {
    is_ident_start(c) || is_digit(c)
}

/// A well-formed key token: nonempty, made of identifier characters and
/// digits only.
pub open spec fn key_token(s: Seq<char>) -> bool {
    &&& s.len() >= 1
    &&& forall|t: int| 0 <= t < s.len() ==> is_ident_char(#[trigger] s[t])
}

/// Scans one key token (identifier or digits) starting at `i`.
pub(crate) fn scan_key(v: &Vec<char>, i: usize) -> (r: Option<(usize, Vec<char>)>)
    requires
        i <= v@.len(),
    ensures
        match r {
            Some((j, tok)) => {
                &&& i < j <= v@.len()
                &&& tok@ == v@.subrange(i as int, j as int)
                &&& key_token(tok@)
                &&& spec_scan_key(v@, i as int) == Some((j as int, tok@))
            },
            None => {
                &&& (i == v@.len() || !is_key_start(v@[i as int]))
                &&& spec_scan_key(v@, i as int) is None
            },
        },
{
    if i < v.len() && ident_start(v[i]) {
        scan_ident(v, i)
    } else {
        scan_number(v, i)
    }
}

pub open spec fn seq_default() -> Seq<char> {
    seq!['d', 'e', 'f', 'a', 'u', 'l', 't']
}

fn is_default_tok(tok: &Vec<char>) -> (r: bool)
    ensures
        r == (tok@ == seq_default()),
{
    let d: Vec<char> = vec!['d', 'e', 'f', 'a', 'u', 'l', 't'];
    chars_eq(tok, &d)
}


// --- The grammar as a mathematical function ---
//
// `spec_parse` states what the parser computes: a deterministic reading of
// the character sequence.  Each executable function below mirrors one of
// these spec functions and its contract ties the two together, so that
// `parser`'s result is fixed, entry by entry, by the input text.

/// The position after the whitespace and `#` comments that begin at `i`
/// (`in_comment` carries the state of an open comment).
pub open spec fn spec_skip_blank(s: Seq<char>, i: int, in_comment: bool) -> int
    decreases s.len() - i,
    when 0 <= i <= s.len()
{
    if i >= s.len() {
        i
    } else if in_comment {
        spec_skip_blank(s, i + 1, s[i] != '\n')
    } else if is_ws(s[i]) {
        spec_skip_blank(s, i + 1, false)
    } else if s[i] == '#' {
        spec_skip_blank(s, i + 1, true)
    } else {
        i
    }
}

proof fn lemma_skip_blank_bounds(s: Seq<char>, i: int, c: bool)
    requires
        0 <= i <= s.len(),
    ensures
        i <= spec_skip_blank(s, i, c) <= s.len(),
    decreases s.len() - i,
{
    if i < s.len() {
        if c {
            lemma_skip_blank_bounds(s, i + 1, s[i] != '\n');
        } else if is_ws(s[i]) {
            lemma_skip_blank_bounds(s, i + 1, false);
        } else if s[i] == '#' {
            lemma_skip_blank_bounds(s, i + 1, true);
        }
    }
}

/// The end of the identifier-character run that begins at `i`.
pub open spec fn spec_ident_end(s: Seq<char>, i: int) -> int
    decreases s.len() - i,
    when 0 <= i <= s.len()
{
    if i < s.len() && is_ident_char(s[i]) {
        spec_ident_end(s, i + 1)
    } else {
        i
    }
}

proof fn lemma_ident_end_bounds(s: Seq<char>, i: int)
    requires
        0 <= i <= s.len(),
    ensures
        i <= spec_ident_end(s, i) <= s.len(),
    decreases s.len() - i,
{
    if i < s.len() && is_ident_char(s[i]) {
        lemma_ident_end_bounds(s, i + 1);
    }
}

/// The identifier at `i`: its end and its characters, if one starts there.
pub open spec fn spec_scan_ident(s: Seq<char>, i: int) -> Option<(int, Seq<char>)> {
    if 0 <= i < s.len() && is_ident_start(s[i]) {
        let j = spec_ident_end(s, i + 1);
        Some((j, s.subrange(i, j)))
    } else {
        None
    }
}

/// The end of the digit run that begins at `i`.
pub open spec fn spec_digits_end(s: Seq<char>, i: int) -> int
    decreases s.len() - i,
    when 0 <= i <= s.len()
{
    if i < s.len() && is_digit(s[i]) {
        spec_digits_end(s, i + 1)
    } else {
        i
    }
}

proof fn lemma_digits_end_bounds(s: Seq<char>, i: int)
    requires
        0 <= i <= s.len(),
    ensures
        i <= spec_digits_end(s, i) <= s.len(),
    decreases s.len() - i,
{
    if i < s.len() && is_digit(s[i]) {
        lemma_digits_end_bounds(s, i + 1);
    }
}

/// The digit run at `i`, if one starts there.
pub open spec fn spec_scan_number(s: Seq<char>, i: int) -> Option<(int, Seq<char>)> {
    if 0 <= i < s.len() && is_digit(s[i]) {
        let j = spec_digits_end(s, i + 1);
        Some((j, s.subrange(i, j)))
    } else {
        None
    }
}

/// The key token at `i`: an identifier, or a digit run.
pub open spec fn spec_scan_key(s: Seq<char>, i: int) -> Option<(int, Seq<char>)> {
    if 0 <= i < s.len() && is_ident_start(s[i]) {
        spec_scan_ident(s, i)
    } else {
        spec_scan_number(s, i)
    }
}

proof fn lemma_scan_key_bounds(s: Seq<char>, i: int)
    requires
        0 <= i <= s.len(),
    ensures
        spec_scan_key(s, i) matches Some(p) ==> i < p.0 <= s.len(),
{
    if i < s.len() {
        lemma_ident_end_bounds(s, i + 1);
        lemma_digits_end_bounds(s, i + 1);
    }
}

/// Where the command text that begins at `i` ends.
pub open spec fn spec_cmd_end(s: Seq<char>, i: int, stop_semi: bool) -> int
    decreases s.len() - i,
    when 0 <= i <= s.len()
{
    if i < s.len() && !is_cmd_end(s[i], stop_semi) {
        spec_cmd_end(s, i + 1, stop_semi)
    } else {
        i
    }
}

proof fn lemma_cmd_end_bounds(s: Seq<char>, i: int, stop_semi: bool)
    requires
        0 <= i <= s.len(),
    ensures
        i <= spec_cmd_end(s, i, stop_semi) <= s.len(),
    decreases s.len() - i,
{
    if i < s.len() && !is_cmd_end(s[i], stop_semi) {
        lemma_cmd_end_bounds(s, i + 1, stop_semi);
    }
}

/// The command text at `i`: its end and its trimmed characters.
pub open spec fn spec_scan_command(s: Seq<char>, i: int, stop_semi: bool) -> (int, Seq<char>) {
    let j = spec_cmd_end(s, i, stop_semi);
    (j, trim_spec(s.subrange(i, j)))
}


/// The keys after the first token: a `+`-separated list with blanks and
/// comments between tokens; `acc` carries the tokens read so far.
pub open spec fn spec_keys_rest(s: Seq<char>, j: int, acc: Seq<Seq<char>>) -> Option<
    (int, Seq<Seq<char>>),
>
    decreases s.len() - j,
    when 0 <= j <= s.len()
    via spec_keys_rest_dec
{
    if j < s.len() && s[j] == '+' {
        match spec_scan_key(s, spec_skip_blank(s, j + 1, false)) {
            None => None,
            Some((j2, tok)) => spec_keys_rest(s, spec_skip_blank(s, j2, false), acc.push(tok)),
        }
    } else {
        Some((j, acc))
    }
}

#[via_fn]
proof fn spec_keys_rest_dec(s: Seq<char>, j: int, acc: Seq<Seq<char>>) {
    if j < s.len() && s[j] == '+' {
        lemma_skip_blank_bounds(s, j + 1, false);
        let j1: int = spec_skip_blank(s, j + 1, false);
        lemma_scan_key_bounds(s, j1);
        match spec_scan_key(s, j1) {
            Some((j2, tok)) => {
                lemma_skip_blank_bounds(s, j2, false);
            },
            None => {},
        }
    }
}

proof fn lemma_keys_rest_bounds(s: Seq<char>, j: int, acc: Seq<Seq<char>>)
    requires
        0 <= j <= s.len(),
    ensures
        spec_keys_rest(s, j, acc) matches Some(p) ==> j <= p.0 <= s.len(),
    decreases s.len() - j,
{
    if j < s.len() && s[j] == '+' {
        lemma_skip_blank_bounds(s, j + 1, false);
        let j1: int = spec_skip_blank(s, j + 1, false);
        lemma_scan_key_bounds(s, j1);
        match spec_scan_key(s, j1) {
            Some((j2, tok)) => {
                lemma_skip_blank_bounds(s, j2, false);
                lemma_keys_rest_bounds(s, spec_skip_blank(s, j2, false), acc.push(tok));
            },
            None => {},
        }
    }
}

/// The key tokens at `i`: one key, then `spec_keys_rest`.
pub open spec fn spec_parse_keys(s: Seq<char>, i: int) -> Option<(int, Seq<Seq<char>>)> {
    match spec_scan_key(s, i) {
        None => None,
        Some((j0, tok)) => spec_keys_rest(s, spec_skip_blank(s, j0, false), seq![tok]),
    }
}

proof fn lemma_parse_keys_bounds(s: Seq<char>, i: int)
    requires
        0 <= i <= s.len(),
    ensures
        spec_parse_keys(s, i) matches Some(p) ==> i < p.0 <= s.len(),
{
    lemma_scan_key_bounds(s, i);
    match spec_scan_key(s, i) {
        Some((j0, tok)) => {
            lemma_skip_blank_bounds(s, j0, false);
            lemma_keys_rest_bounds(s, spec_skip_blank(s, j0, false), seq![tok]);
        },
        None => {},
    }
}

/// The optional `mode >` prefix at `i`: absent or the literal `default`
/// both mean the default mode; on absence the position is unchanged.
pub open spec fn spec_mode_selector(s: Seq<char>, i: int) -> (int, Option<Seq<char>>) {
    match spec_scan_ident(s, i) {
        None => (i, None),
        Some((j, tok)) => {
            let j1 = spec_skip_blank(s, j, false);
            if j1 < s.len() && s[j1] == '>' {
                let j2 = spec_skip_blank(s, j1 + 1, false);
                if tok == seq_default() {
                    (j2, None)
                } else {
                    (j2, Some(tok))
                }
            } else {
                (i, None)
            }
        },
    }
}

proof fn lemma_mode_selector_bounds(s: Seq<char>, i: int)
    requires
        0 <= i <= s.len(),
    ensures
        i <= spec_mode_selector(s, i).0 <= s.len(),
{
    match spec_scan_ident(s, i) {
        Some((j, tok)) => {
            lemma_ident_end_bounds(s, i + 1);
            lemma_skip_blank_bounds(s, j, false);
            let j1: int = spec_skip_blank(s, j, false);
            if j1 < s.len() && s[j1] == '>' {
                lemma_skip_blank_bounds(s, j1 + 1, false);
            }
        },
        None => {},
    }
}

/// The mode name after `;`: the literal `default` means "return to the
/// default mode".
pub open spec fn spec_change_mode(s: Seq<char>, i: int) -> Option<(int, Option<Seq<char>>)> {
    match spec_scan_ident(s, spec_skip_blank(s, i, false)) {
        None => None,
        Some((j, tok)) => Some(
            (
                j,
                if tok == seq_default() {
                    None
                } else {
                    Some(tok)
                },
            ),
        ),
    }
}

proof fn lemma_change_mode_bounds(s: Seq<char>, i: int)
    requires
        0 <= i <= s.len(),
    ensures
        spec_change_mode(s, i) matches Some(p) ==> i < p.0 <= s.len(),
{
    lemma_skip_blank_bounds(s, i, false);
    let j0: int = spec_skip_blank(s, i, false);
    match spec_scan_ident(s, j0) {
        Some((j, tok)) => {
            lemma_ident_end_bounds(s, j0 + 1);
        },
        None => {},
    }
}

/// The action at `i`: `: command [; mode]`, or `; mode` alone.
pub open spec fn spec_action(s: Seq<char>, i: int) -> Option<
    (int, (Option<Seq<char>>, Option<Option<Seq<char>>>)),
> {
    if 0 <= i < s.len() && s[i] == ':' {
        let p = spec_scan_command(s, spec_skip_blank(s, i + 1, false), true);
        let j2 = spec_skip_blank(s, p.0, false);
        if j2 < s.len() && s[j2] == ';' {
            match spec_change_mode(s, j2 + 1) {
                None => None,
                Some((j3, m)) => Some((j3, (Some(p.1), Some(m)))),
            }
        } else {
            Some((j2, (Some(p.1), None)))
        }
    } else if 0 <= i < s.len() && s[i] == ';' {
        match spec_change_mode(s, i + 1) {
            None => None,
            Some((j, m)) => Some((j, (None, Some(m)))),
        }
    } else {
        None
    }
}

proof fn lemma_action_bounds(s: Seq<char>, i: int)
    requires
        0 <= i <= s.len(),
    ensures
        spec_action(s, i) matches Some(p) ==> i < p.0 <= s.len(),
{
    if i < s.len() && s[i] == ':' {
        lemma_skip_blank_bounds(s, i + 1, false);
        let j0: int = spec_skip_blank(s, i + 1, false);
        lemma_cmd_end_bounds(s, j0, true);
        let j1: int = spec_cmd_end(s, j0, true);
        lemma_skip_blank_bounds(s, j1, false);
        let j2: int = spec_skip_blank(s, j1, false);
        if j2 < s.len() && s[j2] == ';' {
            lemma_change_mode_bounds(s, j2 + 1);
        }
    } else if i < s.len() && s[i] == ';' {
        lemma_change_mode_bounds(s, i + 1);
    }
}

/// Parses `key (+ key)*`, with blanks and comments allowed between tokens;
/// returns the position after the keys and any trailing blanks.
fn parse_keys(v: &Vec<char>, i: usize) -> (r: Result<(usize, Vec<String>), ParseError>)
    requires
        i <= v@.len() < usize::MAX,
    ensures
        match r {
            Ok((j, keys)) => {
                &&& i < j <= v@.len()
                &&& keys@.len() >= 1
                &&& forall|k: int| 0 <= k < keys@.len() ==> key_token((#[trigger] keys@[k])@)
                &&& spec_parse_keys(v@, i as int) == Some((j as int, keys.deep_view()))
            },
            Err(e) => located(e, v@) && spec_parse_keys(v@, i as int) is None,
        },
{
    match scan_key(v, i) {
        None => Err(err_at(v, i, ParseErrorKind::ExpectedKey)),
        Some((j0, tok0)) => {
            let mut keys: Vec<String> = Vec::new();
            keys.push(string_of(&tok0));
            proof {
                assert(keys.deep_view() =~= seq![tok0@]);
            }
            let mut j: usize = skip_blank(v, j0);
            while j < v.len() && v[j] == '+'
                invariant
                    i < j <= v@.len() < usize::MAX,
                    keys@.len() >= 1,
                    forall|k: int| 0 <= k < keys@.len() ==> key_token((#[trigger] keys@[k])@),
                    spec_parse_keys(v@, i as int) == spec_keys_rest(
                        v@,
                        j as int,
                        keys.deep_view(),
                    ),
                decreases v@.len() - j,
            {
                let j1 = skip_blank(v, j + 1);
                match scan_key(v, j1) {
                    None => {
                        return Err(err_at(v, j1, ParseErrorKind::ExpectedKey));
                    },
                    Some((j2, tok)) => {
                        let ghost pre = keys.deep_view();
                        keys.push(string_of(&tok));
                        proof {
                            assert(keys.deep_view() =~= pre.push(tok@));
                        }
                        j = skip_blank(v, j2);
                    },
                }
            }
            Ok((j, keys))
        },
    }
}

/// Parses an optional `mode >` prefix.  An absent prefix and the literal
/// `default` both mean the default mode; on absence the position is
/// returned unchanged.
fn parse_mode_selector(v: &Vec<char>, i: usize) -> (r: (usize, Option<String>))
    requires
        i <= v@.len(),
    ensures
        ({
            let (j, m) = r;
            &&& i <= j <= v@.len()
            &&& (j == i ==> m is None)
            &&& (m matches Some(name) ==> name@.len() >= 1)
            &&& (j as int, m.deep_view()) == spec_mode_selector(v@, i as int)
        }),
{
    match scan_ident(v, i) {
        None => (i, None),
        Some((j, tok)) => {
            let j1 = skip_blank(v, j);
            if j1 < v.len() && v[j1] == '>' {
                let j2 = skip_blank(v, j1 + 1);
                if is_default_tok(&tok) {
                    (j2, None)
                } else {
                    (j2, Some(string_of(&tok)))
                }
            } else {
                (i, None)
            }
        },
    }
}

/// Parses the mode name after `;`; the literal `default` means "return to
/// the default mode".
fn parse_change_mode(v: &Vec<char>, i: usize) -> (r: Result<(usize, Option<String>), ParseError>)
    requires
        i <= v@.len() < usize::MAX,
    ensures
        match r {
            Ok((j, m)) => {
                &&& i <= j <= v@.len()
                &&& (m matches Some(name) ==> name@.len() >= 1)
                &&& spec_change_mode(v@, i as int) == Some((j as int, m.deep_view()))
            },
            Err(e) => {
                &&& located(e, v@) && e.kind == ParseErrorKind::ExpectedModeName
                &&& spec_change_mode(v@, i as int) is None
            },
        },
{
    let j0 = skip_blank(v, i);
    match scan_ident(v, j0) {
        None => Err(err_at(v, j0, ParseErrorKind::ExpectedModeName)),
        Some((j, tok)) => {
            if is_default_tok(&tok) {
                Ok((j, None))
            } else {
                Ok((j, Some(string_of(&tok))))
            }
        },
    }
}

/// A character that ends command text: the end of the line or a comment;
/// in a direct binding a `;` (the mode-change clause) ends it too, while a
/// process-scoped pair's command may contain `;` and `]`.
pub open spec fn is_cmd_end(c: char, stop_semi: bool) -> bool {
    c == '\n' || c == '#' || (stop_semi && c == ';')
}

fn cmd_end(c: char, stop_semi: bool) -> (r: bool)
    ensures
        r == is_cmd_end(c, stop_semi),
{
    c == '\n' || c == '#' || (stop_semi && c == ';')
}

/// Scans command text from `i` up to the end of the line, a comment, or
/// (when `stop_semi` is set) a `;`, and trims it.
fn scan_command(v: &Vec<char>, i: usize, stop_semi: bool) -> (r: (usize, Vec<char>))
    requires
        i <= v@.len(),
    ensures
        ({
            let (j, text) = r;
            &&& i <= j <= v@.len()
            &&& text@ == trim_spec(v@.subrange(i as int, j as int))
            &&& (j == v@.len() || is_cmd_end(v@[j as int], stop_semi))
            &&& (j as int, text@) == spec_scan_command(v@, i as int, stop_semi)
        }),
{
    let mut j: usize = i;
    while j < v.len() && !cmd_end(v[j], stop_semi)
        invariant
            i <= j <= v@.len(),
            spec_cmd_end(v@, i as int, stop_semi) == spec_cmd_end(v@, j as int, stop_semi),
        decreases v@.len() - j,
    {
        j = j + 1;
    }
    let raw = slice_chars(v, i, j);
    let text = trim(&raw);
    (j, text)
}

/// Parses a binding's action: `: command [; mode]`, or `; mode` alone.
fn parse_action(v: &Vec<char>, i: usize) -> (r: Result<
    (usize, (Option<String>, Option<Option<String>>)),
    ParseError,
>)
    requires
        i <= v@.len() < usize::MAX,
    ensures
        match r {
            Ok((j, a)) => {
                &&& i < j <= v@.len()
                &&& (a.0 is Some || a.1 is Some)
                &&& (a.1 matches Some(Some(m)) ==> m@.len() >= 1)
                &&& spec_action(v@, i as int) == Some(
                    (j as int, (a.0.deep_view(), a.1.deep_view())),
                )
            },
            Err(e) => located(e, v@) && spec_action(v@, i as int) is None,
        },
{
    if i < v.len() && v[i] == ':' {
        let j0 = skip_blank(v, i + 1);
        let (j1, text) = scan_command(v, j0, true);
        let cmd = Some(string_of(&text));
        let j2 = skip_blank(v, j1);
        if j2 < v.len() && v[j2] == ';' {
            match parse_change_mode(v, j2 + 1) {
                Ok((j3, m)) => Ok((j3, (cmd, Some(m)))),
                Err(e) => Err(e),
            }
        } else {
            Ok((j2, (cmd, None)))
        }
    } else if i < v.len() && v[i] == ';' {
        match parse_change_mode(v, i + 1) {
            Ok((j, m)) => Ok((j, (None, Some(m)))),
            Err(e) => Err(e),
        }
    } else {
        Err(err_at(v, i, ParseErrorKind::ExpectedAction))
    }
}


/// A process name: one or more identifiers separated by blanks, joined by
/// single spaces; `name` carries what has been read so far.
pub open spec fn spec_proc_name(s: Seq<char>, jj: int, name: Seq<char>) -> (int, Seq<char>)
    decreases s.len() - jj,
    when 0 <= jj <= s.len()
    via spec_proc_name_dec
{
    if jj < s.len() && is_ident_start(s[jj]) {
        let j1 = spec_ident_end(s, jj + 1);
        spec_proc_name(s, spec_skip_blank(s, j1, false), name + seq![' '] + s.subrange(jj, j1))
    } else {
        (jj, name)
    }
}

#[via_fn]
proof fn spec_proc_name_dec(s: Seq<char>, jj: int, name: Seq<char>) {
    if jj < s.len() && is_ident_start(s[jj]) {
        lemma_ident_end_bounds(s, jj + 1);
        let j1: int = spec_ident_end(s, jj + 1);
        lemma_skip_blank_bounds(s, j1, false);
    }
}

proof fn lemma_proc_name_bounds(s: Seq<char>, jj: int, name: Seq<char>)
    requires
        0 <= jj <= s.len(),
    ensures
        jj <= spec_proc_name(s, jj, name).0 <= s.len(),
    decreases s.len() - jj,
{
    if jj < s.len() && is_ident_start(s[jj]) {
        lemma_ident_end_bounds(s, jj + 1);
        let j1: int = spec_ident_end(s, jj + 1);
        lemma_skip_blank_bounds(s, j1, false);
        lemma_proc_name_bounds(
            s,
            spec_skip_blank(s, j1, false),
            name + seq![' '] + s.subrange(jj, j1),
        );
    }
}

/// The pairs of a process-scoped block, read from `j` (after the `[`) to
/// the closing `]`; each pair becomes a binding with the block's keys.
pub open spec fn spec_block_pairs(
    s: Seq<char>,
    j: int,
    keys: Seq<Seq<char>>,
    acc: Seq<crate::whkdrc::BindingModel>,
) -> Option<(int, Seq<crate::whkdrc::BindingModel>)>
    decreases s.len() - j,
    when 0 <= j <= s.len()
    via spec_block_pairs_dec
{
    if j >= s.len() {
        None
    } else if s[j] == ']' {
        if acc.len() == 0 {
            None
        } else {
            Some((j + 1, acc))
        }
    } else {
        match spec_scan_ident(s, j) {
            None => None,
            Some((j0, first)) => {
                let p = spec_proc_name(s, spec_skip_blank(s, j0, false), first);
                if p.0 < s.len() && s[p.0] == ':' {
                    let c = spec_scan_command(s, spec_skip_blank(s, p.0 + 1, false), false);
                    spec_block_pairs(
                        s,
                        spec_skip_blank(s, c.0, false),
                        keys,
                        acc.push(
                            crate::whkdrc::BindingModel {
                                mode: None,
                                keys,
                                command: Some(c.1),
                                internal_action: None,
                                process_name: Some(p.1),
                            },
                        ),
                    )
                } else {
                    None
                }
            },
        }
    }
}

#[via_fn]
proof fn spec_block_pairs_dec(
    s: Seq<char>,
    j: int,
    keys: Seq<Seq<char>>,
    acc: Seq<crate::whkdrc::BindingModel>,
) {
    if 0 <= j < s.len() && s[j] != ']' {
        match spec_scan_ident(s, j) {
            Some((j0, first)) => {
                lemma_ident_end_bounds(s, j + 1);
                lemma_skip_blank_bounds(s, j0, false);
                lemma_proc_name_bounds(s, spec_skip_blank(s, j0, false), first);
                let p: (int, Seq<char>) = spec_proc_name(s, spec_skip_blank(s, j0, false), first);
                if p.0 < s.len() && s[p.0] == ':' {
                    lemma_skip_blank_bounds(s, p.0 + 1, false);
                    lemma_cmd_end_bounds(s, spec_skip_blank(s, p.0 + 1, false), false);
                    let c0: int = spec_cmd_end(s, spec_skip_blank(s, p.0 + 1, false), false);
                    lemma_skip_blank_bounds(s, c0, false);
                }
            },
            None => {},
        }
    }
}

proof fn lemma_block_pairs_bounds(
    s: Seq<char>,
    j: int,
    keys: Seq<Seq<char>>,
    acc: Seq<crate::whkdrc::BindingModel>,
)
    requires
        0 <= j <= s.len(),
    ensures
        spec_block_pairs(s, j, keys, acc) matches Some(p) ==> j < p.0 <= s.len(),
    decreases s.len() - j,
{
    if j < s.len() && s[j] != ']' {
        match spec_scan_ident(s, j) {
            Some((j0, first)) => {
                lemma_ident_end_bounds(s, j + 1);
                lemma_skip_blank_bounds(s, j0, false);
                lemma_proc_name_bounds(s, spec_skip_blank(s, j0, false), first);
                let p: (int, Seq<char>) = spec_proc_name(s, spec_skip_blank(s, j0, false), first);
                if p.0 < s.len() && s[p.0] == ':' {
                    lemma_skip_blank_bounds(s, p.0 + 1, false);
                    lemma_cmd_end_bounds(s, spec_skip_blank(s, p.0 + 1, false), false);
                    let c: (int, Seq<char>) = spec_scan_command(
                        s,
                        spec_skip_blank(s, p.0 + 1, false),
                        false,
                    );
                    lemma_skip_blank_bounds(s, c.0, false);
                    lemma_block_pairs_bounds(
                        s,
                        spec_skip_blank(s, c.0, false),
                        keys,
                        acc.push(
                            crate::whkdrc::BindingModel {
                                mode: None,
                                keys,
                                command: Some(c.1),
                                internal_action: None,
                                process_name: Some(p.1),
                            },
                        ),
                    );
                }
            },
            None => {},
        }
    }
}

/// The shape of a binding produced by a process-scoped block: no mode, no
/// mode change, the block's keys, a command, and a process filter.
pub open spec fn block_binding(b: crate::whkdrc::BindingModel, keys: Seq<Seq<char>>) -> bool {
    &&& b.mode is None
    &&& b.keys == keys
    &&& b.command is Some
    &&& b.internal_action is None
    &&& (b.process_name matches Some(p) && p.len() >= 1)
}

/// Parses the inside of a process-scoped block after `[`: one or more
/// `process-name : command` pairs, then `]`.  A process name is one or more
/// identifiers, joined by single spaces.
fn parse_process_block(v: &Vec<char>, i: usize, keys: &Vec<String>) -> (r: Result<
    (usize, Vec<HotkeyBinding>),
    ParseError,
>)
    requires
        i <= v@.len() < usize::MAX,
    ensures
        match r {
            Ok((j, bs)) => {
                &&& i < j <= v@.len()
                &&& bs@.len() >= 1
                &&& forall|k: int|
                    0 <= k < bs@.len() ==> block_binding((#[trigger] bs@[k])@, keys.deep_view())
                &&& spec_block_pairs(
                    v@,
                    spec_skip_blank(v@, i as int, false),
                    keys.deep_view(),
                    Seq::empty(),
                ) == Some((j as int, bs.deep_view()))
            },
            Err(e) => {
                &&& located(e, v@)
                &&& spec_block_pairs(
                    v@,
                    spec_skip_blank(v@, i as int, false),
                    keys.deep_view(),
                    Seq::empty(),
                ) is None
            },
        },
{
    let mut bs: Vec<HotkeyBinding> = Vec::new();
    let mut j: usize = skip_blank(v, i);
    let ghost start = j as int;
    proof {
        assert(bs.deep_view() =~= Seq::<crate::whkdrc::BindingModel>::empty());
    }
    loop
        invariant
            i <= j <= v@.len() < usize::MAX,
            start == spec_skip_blank(v@, i as int, false),
            forall|k: int|
                0 <= k < bs@.len() ==> block_binding((#[trigger] bs@[k])@, keys.deep_view()),
            spec_block_pairs(v@, start, keys.deep_view(), Seq::empty()) == spec_block_pairs(
                v@,
                j as int,
                keys.deep_view(),
                bs.deep_view(),
            ),
        decreases v@.len() - j,
    {
        if j >= v.len() {
            return Err(err_at(v, j, ParseErrorKind::UnclosedBlock));
        }
        if v[j] == ']' {
            if bs.len() == 0 {
                return Err(err_at(v, j, ParseErrorKind::ExpectedProcessName));
            }
            return Ok((j + 1, bs));
        }
        match scan_ident(v, j) {
            None => {
                return Err(err_at(v, j, ParseErrorKind::ExpectedProcessName));
            },
            Some((j0, first)) => {
                let mut name = first;
                let mut jj: usize = skip_blank(v, j0);
                let ghost nm_start = jj as int;
                let ghost first_tok = name@;
                while jj < v.len() && ident_start(v[jj])
                    invariant
                        j < jj <= v@.len(),
                        name@.len() >= 1,
                        spec_proc_name(v@, nm_start, first_tok) == spec_proc_name(
                            v@,
                            jj as int,
                            name@,
                        ),
                    decreases v@.len() - jj,
                {
                    match scan_ident(v, jj) {
                        None => {
                            assert(false);
                        },
                        Some((j1, tok)) => {
                            let ghost pre_name = name@;
                            let mut tok = tok;
                            name.push(' ');
                            name.append(&mut tok);
                            proof {
                                assert(name@ =~= pre_name + seq![' '] + v@.subrange(
                                    jj as int,
                                    j1 as int,
                                ));
                            }
                            jj = skip_blank(v, j1);
                        },
                    }
                }
                if jj >= v.len() || v[jj] != ':' {
                    return Err(err_at(v, jj, ParseErrorKind::ExpectedColon));
                }
                let j2 = skip_blank(v, jj + 1);
                let (j3, text) = scan_command(v, j2, false);
                let keys_copy = keys.clone();
                proof {
                    assert(keys_copy.deep_view() =~= keys.deep_view());
                }
                let ghost pre_bs = bs.deep_view();
                let binding = HotkeyBinding {
                    mode: None,
                    keys: keys_copy,
                    command: Some(string_of(&text)),
                    internal_action: None,
                    process_name: Some(string_of(&name)),
                };
                proof {
                    assert(binding@ =~= crate::whkdrc::BindingModel {
                        mode: None,
                        keys: keys.deep_view(),
                        command: Some(text@),
                        internal_action: None,
                        process_name: Some(name@),
                    });
                }
                bs.push(binding);
                proof {
                    assert(bs.deep_view() =~= pre_bs.push(
                        crate::whkdrc::BindingModel {
                            mode: None,
                            keys: keys.deep_view(),
                            command: Some(text@),
                            internal_action: None,
                            process_name: Some(name@),
                        },
                    ));
                }
                j = skip_blank(v, j3);
            },
        }
    }
}


/// The shell named by a token, if it is one of the closed set.
pub open spec fn spec_shell_name(tok: Seq<char>) -> Option<Shell> {
    if tok == seq!['p', 'w', 's', 'h'] {
        Some(Shell::Pwsh)
    } else if tok == seq!['p', 'o', 'w', 'e', 'r', 's', 'h', 'e', 'l', 'l'] {
        Some(Shell::Powershell)
    } else if tok == seq!['c', 'm', 'd'] {
        Some(Shell::Cmd)
    } else {
        None
    }
}

/// The optional `.shell` directive at `i`: absent, the shell defaults to
/// `pwsh` and the position is unchanged; present, it must name a known
/// shell or the document is rejected.
pub open spec fn spec_shell(s: Seq<char>, i: int) -> Option<(int, Shell)> {
    if 0 <= i < s.len() && s[i] == '.' {
        match spec_scan_ident(s, i + 1) {
            None => None,
            Some((j, tok)) => {
                if tok != seq!['s', 'h', 'e', 'l', 'l'] {
                    None
                } else {
                    match spec_scan_ident(s, spec_skip_blank(s, j, false)) {
                        None => None,
                        Some((j1, name)) => match spec_shell_name(name) {
                            None => None,
                            Some(sh) => Some((spec_skip_blank(s, j1, false), sh)),
                        },
                    }
                }
            },
        }
    } else {
        Some((i, Shell::Pwsh))
    }
}

/// The entries of a document from `i` on: first zero or more
/// process-scoped blocks, then one or more direct bindings; `app` and
/// `binds` carry what has been read so far.
pub open spec fn spec_entries(
    s: Seq<char>,
    i: int,
    shell: Shell,
    app: Seq<crate::whkdrc::AppBlockModel>,
    binds: Seq<crate::whkdrc::BindingModel>,
) -> Option<crate::whkdrc::WhkdrcModel>
    decreases s.len() - i,
    when 0 <= i <= s.len()
    via spec_entries_dec
{
    if i >= s.len() {
        if binds.len() == 0 {
            None
        } else {
            Some(crate::whkdrc::WhkdrcModel { shell, app_bindings: app, bindings: binds })
        }
    } else {
        let sel = spec_mode_selector(s, i);
        match spec_parse_keys(s, sel.0) {
            None => None,
            Some((jk, keys)) => {
                if jk < s.len() && s[jk] == '[' {
                    if sel.0 != i || binds.len() > 0 {
                        None
                    } else {
                        match spec_block_pairs(
                            s,
                            spec_skip_blank(s, jk + 1, false),
                            keys,
                            Seq::empty(),
                        ) {
                            None => None,
                            Some((j2, bs)) => spec_entries(
                                s,
                                spec_skip_blank(s, j2, false),
                                shell,
                                app.push(crate::whkdrc::AppBlockModel { keys, bindings: bs }),
                                binds,
                            ),
                        }
                    }
                } else {
                    match spec_action(s, jk) {
                        None => None,
                        Some((j2, a)) => spec_entries(
                            s,
                            spec_skip_blank(s, j2, false),
                            shell,
                            app,
                            binds.push(
                                crate::whkdrc::BindingModel {
                                    mode: sel.1,
                                    keys,
                                    command: a.0,
                                    internal_action: a.1,
                                    process_name: None,
                                },
                            ),
                        ),
                    }
                }
            },
        }
    }
}

#[via_fn]
proof fn spec_entries_dec(
    s: Seq<char>,
    i: int,
    shell: Shell,
    app: Seq<crate::whkdrc::AppBlockModel>,
    binds: Seq<crate::whkdrc::BindingModel>,
) {
    if 0 <= i < s.len() {
        lemma_mode_selector_bounds(s, i);
        let sel: (int, Option<Seq<char>>) = spec_mode_selector(s, i);
        lemma_parse_keys_bounds(s, sel.0);
        match spec_parse_keys(s, sel.0) {
            Some((jk, keys)) => {
                if jk < s.len() && s[jk] == '[' {
                    lemma_skip_blank_bounds(s, jk + 1, false);
                    lemma_block_pairs_bounds(
                        s,
                        spec_skip_blank(s, jk + 1, false),
                        keys,
                        Seq::empty(),
                    );
                    match spec_block_pairs(
                        s,
                        spec_skip_blank(s, jk + 1, false),
                        keys,
                        Seq::empty(),
                    ) {
                        Some((j2, bs)) => {
                            lemma_skip_blank_bounds(s, j2, false);
                        },
                        None => {},
                    }
                } else {
                    lemma_action_bounds(s, jk);
                    match spec_action(s, jk) {
                        Some((j2, a)) => {
                            lemma_skip_blank_bounds(s, j2, false);
                        },
                        None => {},
                    }
                }
            },
            None => {},
        }
    }
}

/// The grammar of a whole configuration document, as a function from the
/// text to the parsed document; `None` where the text does not conform.
pub open spec fn spec_parse(s: Seq<char>) -> Option<crate::whkdrc::WhkdrcModel> {
    match spec_shell(s, spec_skip_blank(s, 0, false)) {
        None => None,
        Some((i, sh)) => spec_entries(s, i, sh, Seq::empty(), Seq::empty()),
    }
}

/// Parses the name after `.shell` into a `Shell`.
fn shell_of_tok(tok: &Vec<char>) -> (r: Option<Shell>)
    ensures
        r == spec_shell_name(tok@),
{
    let pwsh: Vec<char> = vec!['p', 'w', 's', 'h'];
    let powershell: Vec<char> = vec!['p', 'o', 'w', 'e', 'r', 's', 'h', 'e', 'l', 'l'];
    let cmd: Vec<char> = vec!['c', 'm', 'd'];
    if chars_eq(tok, &pwsh) {
        Some(Shell::Pwsh)
    } else if chars_eq(tok, &powershell) {
        Some(Shell::Powershell)
    } else if chars_eq(tok, &cmd) {
        Some(Shell::Cmd)
    } else {
        None
    }
}

/// The shape of a direct binding: at least one key token, no process
/// filter, and a command or a mode change (or both).
pub open spec fn direct_binding(b: crate::whkdrc::BindingModel) -> bool {
    &&& b.keys.len() >= 1
    &&& (forall|k: int| 0 <= k < b.keys.len() ==> key_token(#[trigger] b.keys[k]))
    &&& b.process_name is None
    &&& (b.command is Some || b.internal_action is Some)
    &&& (b.mode matches Some(m) ==> m.len() >= 1)
    &&& (b.internal_action matches Some(Some(m)) ==> m.len() >= 1)
}

/// The shape of a parsed process-scoped block.
pub open spec fn app_block(a: crate::whkdrc::AppBlockModel) -> bool {
    &&& a.keys.len() >= 1
    &&& (forall|k: int| 0 <= k < a.keys.len() ==> key_token(#[trigger] a.keys[k]))
    &&& a.bindings.len() >= 1
    &&& forall|k: int| 0 <= k < a.bindings.len() ==> block_binding(#[trigger] a.bindings[k], a.keys)
}

/// What every successfully parsed document satisfies: at least one direct
/// binding, each of the shape `direct_binding`, and every process-scoped
/// block of the shape `app_block`.
pub open spec fn parsed_document(w: crate::whkdrc::WhkdrcModel) -> bool {
    &&& w.bindings.len() >= 1
    &&& forall|k: int| 0 <= k < w.bindings.len() ==> direct_binding(#[trigger] w.bindings[k])
    &&& forall|k: int| 0 <= k < w.app_bindings.len() ==> app_block(#[trigger] w.app_bindings[k])
}

/// Parses a whole configuration document from its characters.
///
/// The document is an optional `.shell` directive (default `pwsh`), zero or
/// more process-scoped blocks, and one or more direct bindings, in that
/// order; whitespace and `#` comments may stand between any two tokens.  On
/// failure the error locates the offending position and no document is
/// returned.
pub fn parse_chars(v: &Vec<char>) -> (r: Result<Whkdrc, ParseError>)
    requires
        v@.len() < usize::MAX,
    ensures
        match r {
            Ok(w) => parsed_document(w@) && spec_parse(v@) == Some(w@),
            Err(e) => located(e, v@) && spec_parse(v@) is None,
        },
{
    let mut i: usize = skip_blank(v, 0);
    let ghost i0 = i as int;
    let mut shell = Shell::Pwsh;
    if i < v.len() && v[i] == '.' {
        let after_dot = match scan_ident(v, i + 1) {
            None => {
                return Err(err_at(v, i, ParseErrorKind::ExpectedShellName));
            },
            Some((j, tok)) => {
                let sh: Vec<char> = vec!['s', 'h', 'e', 'l', 'l'];
                if !chars_eq(&tok, &sh) {
                    return Err(err_at(v, i, ParseErrorKind::ExpectedShellName));
                }
                j
            },
        };
        let j0 = skip_blank(v, after_dot);
        match scan_ident(v, j0) {
            None => {
                return Err(err_at(v, j0, ParseErrorKind::ExpectedShellName));
            },
            Some((j1, tok)) => {
                match shell_of_tok(&tok) {
                    None => {
                        return Err(err_at(v, j0, ParseErrorKind::ExpectedShellName));
                    },
                    Some(s) => {
                        shell = s;
                        i = skip_blank(v, j1);
                    },
                }
            },
        }
    }
    proof {
        assert(spec_shell(v@, i0) == Some((i as int, shell)));
    }
    let mut app_bindings: Vec<(Vec<String>, Vec<HotkeyBinding>)> = Vec::new();
    let mut bindings: Vec<HotkeyBinding> = Vec::new();
    proof {
        assert(Seq::new(app_bindings@.len() as nat, |k: int| crate::whkdrc::block_model(app_bindings@[k]))
            =~= Seq::<crate::whkdrc::AppBlockModel>::empty());
        assert(bindings.deep_view() =~= Seq::<crate::whkdrc::BindingModel>::empty());
    }
    while i < v.len()
        invariant
            i <= v@.len() < usize::MAX,
            forall|k: int| 0 <= k < bindings@.len() ==> direct_binding((#[trigger] bindings@[k])@),
            forall|k: int|
                0 <= k < app_bindings@.len() ==> app_block(
                    crate::whkdrc::block_model(#[trigger] app_bindings@[k]),
                ),
            spec_parse(v@) == spec_entries(
                v@,
                i as int,
                shell,
                Seq::new(app_bindings@.len() as nat, |k: int| crate::whkdrc::block_model(app_bindings@[k])),
                bindings.deep_view(),
            ),
        decreases v@.len() - i,
    {
        let (j_sel, mode) = parse_mode_selector(v, i);
        let selector_present = j_sel != i;
        let (j_keys, keys) = match parse_keys(v, j_sel) {
            Ok(p) => p,
            Err(e) => {
                return Err(e);
            },
        };
        if j_keys < v.len() && v[j_keys] == '[' {
            if selector_present || bindings.len() > 0 {
                return Err(err_at(v, j_keys, ParseErrorKind::UnexpectedBlock));
            }
            match parse_process_block(v, j_keys + 1, &keys) {
                Ok((j2, bs)) => {
                    let ghost pre = Seq::new(
                        app_bindings@.len() as nat,
                        |k: int| crate::whkdrc::block_model(app_bindings@[k]),
                    );
                    let ghost block = crate::whkdrc::AppBlockModel {
                        keys: keys.deep_view(),
                        bindings: bs.deep_view(),
                    };
                    app_bindings.push((keys, bs));
                    proof {
                        assert(Seq::new(
                            app_bindings@.len() as nat,
                            |k: int| crate::whkdrc::block_model(app_bindings@[k]),
                        ) =~= pre.push(block));
                    }
                    i = skip_blank(v, j2);
                },
                Err(e) => {
                    return Err(e);
                },
            }
        } else {
            match parse_action(v, j_keys) {
                Ok((j2, (cmd, act))) => {
                    let ghost pre = bindings.deep_view();
                    let binding = HotkeyBinding {
                        mode,
                        keys,
                        command: cmd,
                        internal_action: act,
                        process_name: None,
                    };
                    let ghost model = binding@;
                    bindings.push(binding);
                    proof {
                        assert(bindings.deep_view() =~= pre.push(model));
                    }
                    i = skip_blank(v, j2);
                },
                Err(e) => {
                    return Err(e);
                },
            }
        }
    }
    if bindings.len() == 0 {
        return Err(err_at(v, i, ParseErrorKind::NoBindings));
    }
    let w = Whkdrc { shell, app_bindings, bindings };
    proof {
        assert(w@ =~= crate::whkdrc::WhkdrcModel {
            shell,
            app_bindings: Seq::new(w.app_bindings@.len() as nat, |k: int| crate::whkdrc::block_model(
                w.app_bindings@[k],
            )),
            bindings: w.bindings.deep_view(),
        });
    }
    Ok(w)
}

/// Parses a configuration document, or fails with a syntax error locating
/// the offending line and column; no partial document is ever returned.
pub fn parser(src: &str) -> (r: Result<Whkdrc, ParseError>)
    ensures
        r matches Ok(w) ==> parsed_document(w@) && spec_parse(src@) == Some(w@),
        r matches Err(e) ==> located(e, src@),
        src@.len() < usize::MAX ==> (r is Ok <==> spec_parse(src@) is Some),
{
    let v = chars_of(src);
    if v.len() == usize::MAX {
        // a document of this size cannot be addressed by position
        return Err(ParseError { kind: ParseErrorKind::TooLong, pos: 0, line: 1, col: 1 });
    }
    parse_chars(&v)
}

} // verus!
