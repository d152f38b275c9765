//! Mathematical model of the author grammar.
//!
//! Everything here is specification-level: recursive scanning functions over
//! `Seq<char>`, the grammar rules as total spec functions, and the ghost
//! records that the executable types view into.

use vstd::prelude::*;

verus! {

/// A character that may appear inside a `name` run: anything except the
/// delimiters that terminate a name.
pub open spec fn is_name_char(c: char) -> bool {
    c != ']' && c != '<' && c != ',' && c != '"'
}

/// Separator blanks: the whitespace allowed around commas and brackets.
pub open spec fn is_blank(c: char) -> bool {
    c == ' ' || c == '\t'
}

/// Whitespace trimmed from the edges of a parsed name.
pub open spec fn is_trim_char(c: char) -> bool {
    c == ' ' || c == '\t' || c == '\n' || c == '\r'
}

/// The predicate for `name` runs, as a single closure value so that every
/// use of `scan` over names speaks of the same function.
pub open spec fn name_char_p() -> spec_fn(char) -> bool {
    |c: char| is_name_char(c)
}

/// The predicate for separator blanks.
pub open spec fn blank_p() -> spec_fn(char) -> bool {
    |c: char| is_blank(c)
}

/// The predicate for trimmable whitespace.
pub open spec fn trim_p() -> spec_fn(char) -> bool {
    |c: char| is_trim_char(c)
}

/// The predicate for email bodies: any character up to the closing `>`.
pub open spec fn email_char_p() -> spec_fn(char) -> bool {
    |c: char| c != '>'
}

/// First position at or after `i` whose character fails `p`, or the end of
/// the sequence if every remaining character satisfies `p`.
pub open spec fn scan(s: Seq<char>, i: int, p: spec_fn(char) -> bool) -> int
    decreases s.len() - i
        when 0 <= i <= s.len()
{
    if i < s.len() && p(s[i]) {
        scan(s, i + 1, p)
    } else {
        i
    }
}

/// Walking backward from `j` (never below `lo`): the least position `b`
/// such that every character in `[b, j)` satisfies `p` and the character
/// just before `b`, if any above `lo`, fails `p`.
pub open spec fn scan_back(s: Seq<char>, lo: int, j: int, p: spec_fn(char) -> bool) -> int
    decreases j - lo
        when 0 <= lo <= j <= s.len()
{
    if j > lo && p(s[j - 1]) {
        scan_back(s, lo, j - 1, p)
    } else {
        j
    }
}

/// End of the maximal `name` run starting at `i`.
pub open spec fn name_end(s: Seq<char>, i: int) -> int {
    scan(s, i, name_char_p())
}

/// End of the maximal run of blanks starting at `i`.
pub open spec fn blank_end(s: Seq<char>, i: int) -> int {
    scan(s, i, blank_p())
}

/// End of the maximal run of non-`>` characters starting at `i`.
pub open spec fn email_body_end(s: Seq<char>, i: int) -> int {
    scan(s, i, email_char_p())
}

/// First non-whitespace position at or after `i`.
pub open spec fn trim_from(s: Seq<char>, i: int) -> int {
    scan(s, i, trim_p())
}

/// Position after the last non-whitespace character of `[lo, j)`.
pub open spec fn trim_back(s: Seq<char>, lo: int, j: int) -> int {
    scan_back(s, lo, j, trim_p())
}

/// A sequence with its surrounding whitespace removed.
pub open spec fn spec_trim(s: Seq<char>) -> Seq<char> {
    let a = trim_from(s, 0);
    let b = trim_back(s, a, s.len() as int);
    s.subrange(a, b)
}

pub proof fn lemma_scan(s: Seq<char>, i: int, p: spec_fn(char) -> bool)
    requires
        0 <= i <= s.len(),
    ensures
        i <= scan(s, i, p) <= s.len(),
        forall|k: int| i <= k < scan(s, i, p) ==> p(s[k]),
        scan(s, i, p) < s.len() ==> !p(s[scan(s, i, p)]),
    decreases s.len() - i,
{
    if i < s.len() && p(s[i]) {
        lemma_scan(s, i + 1, p);
    }
}

/// `scan` lands exactly on `j` when `[i, j)` all satisfy `p` and `j` is the
/// end or fails `p`.
pub proof fn lemma_scan_is(s: Seq<char>, i: int, j: int, p: spec_fn(char) -> bool)
    requires
        0 <= i <= j <= s.len(),
        forall|k: int| i <= k < j ==> p(s[k]),
        j < s.len() ==> !p(s[j]),
    ensures
        scan(s, i, p) == j,
    decreases j - i,
{
    if i < j {
        lemma_scan_is(s, i + 1, j, p);
    }
}

pub proof fn lemma_scan_back(s: Seq<char>, lo: int, j: int, p: spec_fn(char) -> bool)
    requires
        0 <= lo <= j <= s.len(),
    ensures
        lo <= scan_back(s, lo, j, p) <= j,
        forall|k: int| scan_back(s, lo, j, p) <= k < j ==> p(s[k]),
        scan_back(s, lo, j, p) > lo ==> !p(s[scan_back(s, lo, j, p) - 1]),
    decreases j - lo,
{
    if j > lo && p(s[j - 1]) {
        lemma_scan_back(s, lo, j - 1, p);
    }
}

/// `scan_back` lands exactly on `b` when `[b, j)` all satisfy `p` and the
/// character before `b`, if above `lo`, fails `p`.
pub proof fn lemma_scan_back_is(s: Seq<char>, lo: int, j: int, b: int, p: spec_fn(char) -> bool)
    requires
        0 <= lo <= b <= j <= s.len(),
        forall|k: int| b <= k < j ==> p(s[k]),
        b > lo ==> !p(s[b - 1]),
    ensures
        scan_back(s, lo, j, p) == b,
    decreases j - b,
{
    if j > b {
        lemma_scan_back_is(s, lo, j - 1, b, p);
    }
}

/// Why a parse stopped: the grammar rule that could not continue.
#[derive(Debug, Clone, Copy, PartialEq, Eq)]
pub enum Reason {
    /// The trimmed name run at the failure position was empty.
    MissingName,
    /// An email was demanded but no `<` stood at the failure position.
    MissingEmailOpen,
    /// `<` was immediately followed by `>` or the end of input.
    MissingEmailBody,
    /// `<` was never answered by a closing `>`.
    MissingEmailClose,
    /// The grammar was done but input characters remained.
    Trailing,
}

/// A located failure: where the grammar stopped and which rule stopped it.
pub ghost struct Fail {
    pub pos: int,
    pub why: Reason,
}

/// The ghost form of one parsed author.
pub ghost struct AuthorV {
    pub name: Seq<char>,
    pub email: Option<Seq<char>>,
}

/// The `name` rule: the maximal run of non-delimiter characters starting at
/// `i`, with surrounding whitespace trimmed. Fails when the trimmed run is
/// empty. On success yields the trimmed bounds `(a, b)` and the position
/// after the whole run; the parsed text is `s.subrange(a, b)`.
pub open spec fn spec_name(s: Seq<char>, i: int) -> Result<(int, int, int), Fail> {
    let j = name_end(s, i);
    let a = trim_from(s, i);
    if j == i || a == j {
        Err(Fail { pos: i, why: Reason::MissingName })
    } else {
        let b = trim_back(s, a, j);
        Ok((a, b, j))
    }
}

/// The `email` rule: `<`, a non-empty body, `>`. On success yields the body
/// bounds `(a, b)` and the position after the `>`.
pub open spec fn spec_email(s: Seq<char>, i: int) -> Result<(int, int, int), Fail> {
    if !(i < s.len() && s[i] == '<') {
        Err(Fail { pos: i, why: Reason::MissingEmailOpen })
    } else {
        let b = email_body_end(s, i + 1);
        if b == i + 1 {
            Err(Fail { pos: i + 1, why: Reason::MissingEmailBody })
        } else if b == s.len() {
            Err(Fail { pos: b, why: Reason::MissingEmailClose })
        } else {
            Ok((i + 1, b, b + 1))
        }
    }
}

/// The `author` rule: optional quote, name, optional email (attempted
/// exactly when a `<` follows the name), optional quote.
pub open spec fn spec_author(s: Seq<char>, i: int) -> Result<(AuthorV, int), Fail> {
    let i1: int = if i < s.len() && s[i] == '"' {
        i + 1
    } else {
        i
    };
    match spec_name(s, i1) {
        Err(f) => Err(f),
        Ok((a, b, j)) => {
            if j < s.len() && s[j] == '<' {
                match spec_email(s, j) {
                    Err(f) => Err(f),
                    Ok((ea, eb, k)) => {
                        let k2: int = if k < s.len() && s[k] == '"' {
                            k + 1
                        } else {
                            k
                        };
                        Ok(
                            (
                                AuthorV {
                                    name: s.subrange(a, b),
                                    email: Some(s.subrange(ea, eb)),
                                },
                                k2,
                            ),
                        )
                    },
                }
            } else {
                let k2: int = if j < s.len() && s[j] == '"' {
                    j + 1
                } else {
                    j
                };
                Ok((AuthorV { name: s.subrange(a, b), email: None }, k2))
            }
        },
    }
}

/// The `separator` rule: blanks, one comma, blanks. `Some` carries the
/// position after the trailing blanks.
pub open spec fn spec_separator(s: Seq<char>, i: int) -> Option<int> {
    let j = blank_end(s, i);
    if j < s.len() && s[j] == ',' {
        Some(blank_end(s, j + 1))
    } else {
        None
    }
}

/// The tail of an author list: as long as a separator matches, one more
/// author must follow. `acc` carries the authors parsed so far. The guard
/// `i < k` keeps the definition total; a parsed author contains at least
/// one name character past the separator's comma, so the `Ok((acc, i))`
/// fallback under a matched separator is never the value of a reachable
/// parse.
pub open spec fn spec_author_list(s: Seq<char>, i: int, acc: Seq<AuthorV>) -> Result<
    (Seq<AuthorV>, int),
    Fail,
>
    decreases s.len() - i
        when 0 <= i <= s.len()
{
    match spec_separator(s, i) {
        None => Ok((acc, i)),
        Some(j) => match spec_author(s, j) {
            Err(f) => Err(f),
            Ok((a, k)) => if i < k <= s.len() {
                spec_author_list(s, k, acc.push(a))
            } else {
                Ok((acc, i))
            },
        },
    }
}

/// The `authors` rule: optional `[`, blanks, one or more authors separated
/// by commas, blanks, optional `]`. On success yields the parsed authors in
/// input order and the position after the optional `]`.
pub open spec fn spec_authors(s: Seq<char>, i: int) -> Result<(Seq<AuthorV>, int), Fail> {
    let i0: int = if i < s.len() && s[i] == '[' {
        i + 1
    } else {
        i
    };
    let i1 = blank_end(s, i0);
    match spec_author(s, i1) {
        Err(f) => Err(f),
        Ok((a0, j)) => match spec_author_list(s, j, seq![a0]) {
            Err(f) => Err(f),
            Ok((aa, k)) => {
                let k1 = blank_end(s, k);
                let k2: int = if k1 < s.len() && s[k1] == ']' {
                    k1 + 1
                } else {
                    k1
                };
                Ok((aa, k2))
            },
        },
    }
}

/// A full single-author parse: the `author` rule followed by end of input.
pub open spec fn spec_parse_author(s: Seq<char>) -> Result<AuthorV, Fail> {
    match spec_author(s, 0) {
        Err(f) => Err(f),
        Ok((a, k)) => if k == s.len() {
            Ok(a)
        } else {
            Err(Fail { pos: k, why: Reason::Trailing })
        },
    }
}

/// A full author-list parse: the `authors` rule followed by end of input.
pub open spec fn spec_parse_authors(s: Seq<char>) -> Result<Seq<AuthorV>, Fail> {
    match spec_authors(s, 0) {
        Err(f) => Err(f),
        Ok((aa, k)) => if k == s.len() {
            Ok(aa)
        } else {
            Err(Fail { pos: k, why: Reason::Trailing })
        },
    }
}

/// The diagnostic message owed for each failure reason.
pub open spec fn reason_text(r: Reason) -> Seq<char> {
    match r {
        Reason::MissingName => "expected at least one name character"@,
        Reason::MissingEmailOpen => "expected `<`"@,
        Reason::MissingEmailBody => "expected at least one email character"@,
        Reason::MissingEmailClose => "expected `>`"@,
        Reason::Trailing => "expected end of input"@,
    }
}

/// The ghost form of a reported parse error.
pub ghost struct ParseErrorV {
    pub message: Seq<char>,
    pub start: int,
    pub end: int,
    pub input: Seq<char>,
}

/// The error owed for failure `f` while parsing `s`: the message for its
/// reason, a one-character span at its position (empty at end of input),
/// and the whole input.
pub open spec fn error_of(s: Seq<char>, f: Fail) -> ParseErrorV {
    ParseErrorV {
        message: reason_text(f.why),
        start: f.pos,
        end: if f.pos < s.len() {
            f.pos + 1
        } else {
            f.pos
        },
        input: s,
    }
}

/// The canonical rendering of one author: the name alone, or
/// `name <email>` when an email is present.
pub open spec fn spec_render_author(a: AuthorV) -> Seq<char> {
    match a.email {
        Some(e) => a.name + " <"@ + e + ">"@,
        None => a.name,
    }
}


} // verus!
