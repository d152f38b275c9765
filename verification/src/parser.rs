//! The grammar parser: a recursive-descent scan of the author grammar,
//! each rule proved equal to its specification in `model`.

use vstd::prelude::*;
use vstd::string::StrSliceExecFns;
use crate::author::Author;
use crate::author::Authors;
use crate::error::Failure;
use crate::error::ParseError;
use crate::model::AuthorV;
use crate::model::Reason;
use crate::model::blank_end;
use crate::model::blank_p;
use crate::model::email_body_end;
use crate::model::email_char_p;
use crate::model::error_of;
use crate::model::is_blank;
use crate::model::is_name_char;
use crate::model::is_trim_char;
use crate::model::lemma_scan;
use crate::model::name_char_p;
use crate::model::name_end;
use crate::model::spec_author;
use crate::model::spec_author_list;
use crate::model::spec_authors;
use crate::model::spec_email;
use crate::model::spec_name;
use crate::model::spec_parse_author;
use crate::model::spec_parse_authors;
use crate::model::spec_separator;
use crate::model::trim_back;
use crate::model::trim_from;
use crate::model::trim_p;

verus! {

fn blank_char(c: char) -> (b: bool)
    ensures
        b == is_blank(c),
{
    c == ' ' || c == '\t'
}

fn trim_char(c: char) -> (b: bool)
    ensures
        b == is_trim_char(c),
{
    c == ' ' || c == '\t' || c == '\n' || c == '\r'
}

fn name_char(c: char) -> (b: bool)
    ensures
        b == is_name_char(c),
{
    c != ']' && c != '<' && c != ',' && c != '"'
}

fn scan_blanks(s: &str, n: usize, i: usize) -> (j: usize)
    requires
        n == s@.len(),
        i <= n,
    ensures
        j as int == blank_end(s@, i as int),
        i <= j <= n,
{
    let mut j: usize = i;
    while j < n && blank_char(s.get_char(j))
        invariant
            n == s@.len(),
            i <= j <= n,
            blank_end(s@, i as int) == blank_end(s@, j as int),
        decreases n - j,
    {
        j = j + 1;
    }
    j
}

fn scan_name_run(s: &str, n: usize, i: usize) -> (j: usize)
    requires
        n == s@.len(),
        i <= n,
    ensures
        j as int == name_end(s@, i as int),
        i <= j <= n,
{
    let mut j: usize = i;
    while j < n && name_char(s.get_char(j))
        invariant
            n == s@.len(),
            i <= j <= n,
            name_end(s@, i as int) == name_end(s@, j as int),
        decreases n - j,
    {
        j = j + 1;
    }
    j
}

fn scan_email_body(s: &str, n: usize, i: usize) -> (j: usize)
    requires
        n == s@.len(),
        i <= n,
    ensures
        j as int == email_body_end(s@, i as int),
        i <= j <= n,
{
    let mut j: usize = i;
    while j < n && s.get_char(j) != '>'
        invariant
            n == s@.len(),
            i <= j <= n,
            email_body_end(s@, i as int) == email_body_end(s@, j as int),
        decreases n - j,
    {
        j = j + 1;
    }
    j
}

fn scan_trim_front(s: &str, n: usize, i: usize) -> (j: usize)
    requires
        n == s@.len(),
        i <= n,
    ensures
        j as int == trim_from(s@, i as int),
        i <= j <= n,
{
    let mut j: usize = i;
    while j < n && trim_char(s.get_char(j))
        invariant
            n == s@.len(),
            i <= j <= n,
            trim_from(s@, i as int) == trim_from(s@, j as int),
        decreases n - j,
    {
        j = j + 1;
    }
    j
}

fn scan_trim_rear(s: &str, n: usize, lo: usize, j0: usize) -> (b: usize)
    requires
        n == s@.len(),
        lo <= j0 <= n,
    ensures
        b as int == trim_back(s@, lo as int, j0 as int),
        lo <= b <= j0,
{
    let mut b: usize = j0;
    while b > lo && trim_char(s.get_char(b - 1))
        invariant
            n == s@.len(),
            lo <= b <= j0 <= n,
            trim_back(s@, lo as int, j0 as int) == trim_back(s@, lo as int, b as int),
        decreases b,
    {
        b = b - 1;
    }
    b
}

/// The `name` rule: the maximal run of non-delimiter characters starting at
/// `from`, trimmed of surrounding whitespace. On success returns the
/// trimmed text and the position after the whole run.
pub fn name(text: &str, from: usize) -> (r: Result<(String, usize), Failure>)
    requires
        from <= text@.len(),
    ensures
        match spec_name(text@, from as int) {
            Ok((a, b, j)) => r matches Ok(nj) && nj.0@ == text@.subrange(a, b) && nj.1 as int
                == j,
            Err(f) => r matches Err(g) && g@ == f,
        },
        r matches Ok(nj) ==> from < nj.1 && nj.1 as int <= text@.len(),
        r matches Err(g) ==> g.pos as int <= text@.len(),
{
    let n = text.unicode_len();
    let j = scan_name_run(text, n, from);
    let a = scan_trim_front(text, n, from);
    if j == from || a == j {
        return Err(Failure { pos: from, why: Reason::MissingName });
    }
    proof {
        lemma_scan(text@, from as int, trim_p());
        lemma_scan(text@, from as int, name_char_p());
        if a > j {
            assert(is_trim_char(text@[j as int]));
            assert(!is_name_char(text@[j as int]));
            assert(false);
        }
    }
    let b = scan_trim_rear(text, n, a, j);
    let nm = text.substring_char(a, b).to_owned();
    Ok((nm, j))
}

/// The `email` rule: `<`, a non-empty body, `>`. On success returns the
/// body and the position after the `>`.
pub fn email(text: &str, from: usize) -> (r: Result<(String, usize), Failure>)
    requires
        from <= text@.len(),
    ensures
        match spec_email(text@, from as int) {
            Ok((a, b, k)) => r matches Ok(ek) && ek.0@ == text@.subrange(a, b) && ek.1 as int
                == k,
            Err(f) => r matches Err(g) && g@ == f,
        },
        r matches Ok(ek) ==> from < ek.1 && ek.1 as int <= text@.len(),
        r matches Err(g) ==> g.pos as int <= text@.len(),
{
    let n = text.unicode_len();
    if from == n {
        return Err(Failure { pos: from, why: Reason::MissingEmailOpen });
    }
    if text.get_char(from) != '<' {
        return Err(Failure { pos: from, why: Reason::MissingEmailOpen });
    }
    let b = scan_email_body(text, n, from + 1);
    if b == from + 1 {
        return Err(Failure { pos: from + 1, why: Reason::MissingEmailBody });
    }
    if b == n {
        return Err(Failure { pos: b, why: Reason::MissingEmailClose });
    }
    let em = text.substring_char(from + 1, b).to_owned();
    Ok((em, b + 1))
}

/// The `author` rule: optional quote, name, optional email, optional
/// quote. On success returns the parsed author and the next position.
pub fn author(text: &str, from: usize) -> (r: Result<(Author, usize), Failure>)
    requires
        from <= text@.len(),
    ensures
        match spec_author(text@, from as int) {
            Ok((av, k)) => r matches Ok(ak) && ak.0@ == av && ak.1 as int == k,
            Err(f) => r matches Err(g) && g@ == f,
        },
        r matches Ok(ak) ==> from < ak.1 && ak.1 as int <= text@.len(),
        r matches Err(g) ==> g.pos as int <= text@.len(),
{
    let n = text.unicode_len();
    let i1: usize = if from < n && text.get_char(from) == '"' {
        from + 1
    } else {
        from
    };
    match name(text, i1) {
        Err(f) => Err(f),
        Ok((nm, j)) => {
            if j < n && text.get_char(j) == '<' {
                match email(text, j) {
                    Err(f) => Err(f),
                    Ok((em, k)) => {
                        let k2: usize = if k < n && text.get_char(k) == '"' {
                            k + 1
                        } else {
                            k
                        };
                        Ok((Author::new(nm, Some(em)), k2))
                    },
                }
            } else {
                let j2: usize = if j < n && text.get_char(j) == '"' {
                    j + 1
                } else {
                    j
                };
                Ok((Author::new(nm, None), j2))
            }
        },
    }
}

/// The `separator` rule: blanks, one comma, blanks. `Some` carries the
/// position after the trailing blanks.
pub fn separator(text: &str, from: usize) -> (r: Option<usize>)
    requires
        from <= text@.len(),
    ensures
        match spec_separator(text@, from as int) {
            Some(j) => r matches Some(jj) && jj as int == j,
            None => r is None,
        },
        r matches Some(jj) ==> from < jj && jj as int <= text@.len(),
{
    let n = text.unicode_len();
    let j = scan_blanks(text, n, from);
    if j < n && text.get_char(j) == ',' {
        Some(scan_blanks(text, n, j + 1))
    } else {
        None
    }
}

/// The `authors` rule: optional `[`, blanks, one or more authors separated
/// by commas, blanks, optional `]`. On success returns the authors in
/// input order and the position after the optional `]`.
#[verifier::loop_isolation(false)]
pub fn authors(text: &str, from: usize) -> (r: Result<(Authors, usize), Failure>)
    requires
        from <= text@.len(),
    ensures
        match spec_authors(text@, from as int) {
            Ok((aa, k)) => r matches Ok(ak) && ak.0@ == aa && ak.1 as int == k,
            Err(f) => r matches Err(g) && g@ == f,
        },
        r matches Ok(ak) ==> ak.0@.len() >= 1 && ak.1 as int <= text@.len(),
        r matches Err(g) ==> g.pos as int <= text@.len(),
{
    let n = text.unicode_len();
    let i0: usize = if from < n && text.get_char(from) == '[' {
        from + 1
    } else {
        from
    };
    let i1 = scan_blanks(text, n, i0);
    match author(text, i1) {
        Err(f) => Err(f),
        Ok((a0, j0)) => {
            let ghost acc0: Seq<AuthorV> = seq![a0@];
            let ghost list_start: int = j0 as int;
            let mut list = Authors::initial(Some(1));
            list.accumulate(a0);
            proof {
                assert(list@ =~= acc0);
            }
            let mut k: usize = j0;
            loop
                invariant
                    k <= n,
                    list@.len() >= 1,
                    spec_author_list(text@, list_start, acc0) == spec_author_list(
                        text@,
                        k as int,
                        list@,
                    ),
                decreases n - k,
            {
                match separator(text, k) {
                    None => {
                        let k1 = scan_blanks(text, n, k);
                        let k2: usize = if k1 < n && text.get_char(k1) == ']' {
                            k1 + 1
                        } else {
                            k1
                        };
                        return Ok((list, k2));
                    },
                    Some(j) => {
                        match author(text, j) {
                            Err(f) => {
                                return Err(f);
                            },
                            Ok((a, k2)) => {
                                list.accumulate(a);
                                k = k2;
                            },
                        }
                    },
                }
            }
        },
    }
}

/// Parses exactly one author; the whole input must be consumed.
pub fn parse_author(text: &str) -> (r: Result<Author, ParseError>)
    ensures
        match spec_parse_author(text@) {
            Ok(av) => r matches Ok(a) && a@ == av,
            Err(f) => r matches Err(e) && e@ == error_of(text@, f),
        },
{
    let n = text.unicode_len();
    match author(text, 0) {
        Err(f) => Err(ParseError::from_failure(text, f)),
        Ok((a, k)) => {
            if k == n {
                Ok(a)
            } else {
                Err(
                    ParseError::from_failure(
                        text,
                        Failure { pos: k, why: Reason::Trailing },
                    ),
                )
            }
        },
    }
}

/// Parses one or more comma-separated authors, with optional brackets; the
/// whole input must be consumed. A successful result is never empty.
pub fn parse_authors(text: &str) -> (r: Result<Authors, ParseError>)
    ensures
        match spec_parse_authors(text@) {
            Ok(aa) => r matches Ok(a) && a@ == aa,
            Err(f) => r matches Err(e) && e@ == error_of(text@, f),
        },
        r matches Ok(a) ==> a@.len() >= 1,
{
    let n = text.unicode_len();
    match authors(text, 0) {
        Err(f) => Err(ParseError::from_failure(text, f)),
        Ok((aa, k)) => {
            if k == n {
                Ok(aa)
            } else {
                Err(
                    ParseError::from_failure(
                        text,
                        Failure { pos: k, why: Reason::Trailing },
                    ),
                )
            }
        },
    }
}

} // verus!
