//! General laws of the grammar, stated over the specification model and
//! proved once and for all.

use vstd::prelude::*;
use crate::model::AuthorV;
use crate::model::blank_p;
use crate::model::email_char_p;
use crate::model::is_blank;
use crate::model::is_name_char;
use crate::model::is_trim_char;
use crate::model::lemma_scan;
use crate::model::lemma_scan_back;
use crate::model::lemma_scan_back_is;
use crate::model::lemma_scan_is;
use crate::model::name_char_p;
use crate::model::spec_author;
use crate::model::spec_author_list;
use crate::model::spec_email;
use crate::model::spec_name;
use crate::model::spec_parse_author;
use crate::model::spec_parse_authors;
use crate::model::spec_separator;
use crate::model::spec_trim;
use crate::model::trim_back;
use crate::model::trim_from;
use crate::model::trim_p;

verus! {

/// The plain text of one author: the name, then `<email>` when an email is
/// present (no space of its own; any space lives in `nm`).
pub open spec fn author_text(nm: Seq<char>, em: Option<Seq<char>>) -> Seq<char> {
    match em {
        Some(e) => nm + "<"@ + e + ">"@,
        None => nm,
    }
}

/// A text wrapped in double quotes.
pub open spec fn quote_text(t: Seq<char>) -> Seq<char> {
    "\""@ + t + "\""@
}

/// The author value that a valid author text denotes.
pub open spec fn author_value(nm: Seq<char>, em: Option<Seq<char>>) -> AuthorV {
    AuthorV { name: spec_trim(nm), email: em }
}

/// A name text the grammar accepts: non-empty, free of the reserved
/// delimiters, and not all whitespace.
pub open spec fn valid_name(nm: Seq<char>) -> bool {
    &&& nm.len() > 0
    &&& forall|x: int| 0 <= x < nm.len() ==> is_name_char(nm[x])
    &&& spec_trim(nm).len() > 0
}

/// An email text the grammar accepts: absent, or non-empty and free of `>`.
pub open spec fn valid_email(em: Option<Seq<char>>) -> bool {
    match em {
        Some(e) => e.len() > 0 && (forall|x: int| 0 <= x < e.len() ==> e[x] != '>'),
        None => true,
    }
}

/// Facts about the trim bounds of a valid name: the first non-whitespace
/// position lies strictly before the last, and the trimmed text is the
/// subrange between them.
proof fn lemma_trim_bounds(nm: Seq<char>)
    requires
        valid_name(nm),
    ensures
        0 <= trim_from(nm, 0) < trim_back(nm, trim_from(nm, 0), nm.len() as int) <= nm.len(),
        !is_trim_char(nm[trim_from(nm, 0)]),
        trim_from(nm, 0) > 0 ==> is_trim_char(nm[trim_from(nm, 0) - 1]),
        forall|x: int| 0 <= x < trim_from(nm, 0) ==> is_trim_char(nm[x]),
        forall|x: int|
            trim_back(nm, trim_from(nm, 0), nm.len() as int) <= x < nm.len() ==> is_trim_char(
                nm[x],
            ),
        trim_back(nm, trim_from(nm, 0), nm.len() as int) > trim_from(nm, 0) ==> !is_trim_char(
            nm[trim_back(nm, trim_from(nm, 0), nm.len() as int) - 1],
        ),
        spec_trim(nm) == nm.subrange(
            trim_from(nm, 0),
            trim_back(nm, trim_from(nm, 0), nm.len() as int),
        ),
{
    let a = trim_from(nm, 0);
    let b = trim_back(nm, a, nm.len() as int);
    lemma_scan(nm, 0, trim_p());
    lemma_scan_back(nm, a, nm.len() as int, trim_p());
    if a == b {
        assert(spec_trim(nm).len() == 0);
    }
}

/// Appending one blank to a name does not change its trimmed form.
proof fn lemma_trim_pad(nm: Seq<char>)
    ensures
        spec_trim(nm.push(' ')) == spec_trim(nm),
{
    let s2 = nm.push(' ');
    let n = nm.len() as int;
    let a = trim_from(nm, 0);
    lemma_scan(nm, 0, trim_p());
    if a == n {
        // `nm` is all whitespace, and so is `s2`.
        lemma_scan_is(s2, 0, n + 1, trim_p());
        lemma_scan_back(s2, n + 1, n + 1, trim_p());
        lemma_scan_back(nm, a, n, trim_p());
        assert(forall|x: int| a <= x < n ==> is_trim_char(nm[x]));
        lemma_scan_back_is(nm, a, n, a, trim_p());
        assert(spec_trim(nm) =~= spec_trim(s2));
    } else {
        lemma_scan_is(s2, 0, a, trim_p());
        let b = trim_back(nm, a, n);
        lemma_scan_back(nm, a, n, trim_p());
        lemma_scan_back_is(s2, a, n + 1, b, trim_p());
        assert(spec_trim(s2) =~= spec_trim(nm));
    }
}

/// Indexing a two-part concatenation.
proof fn lemma_cat_index(a: Seq<char>, b: Seq<char>, x: int)
    requires
        0 <= x < a.len() + b.len(),
    ensures
        (a + b)[x] == (if x < a.len() {
            a[x]
        } else {
            b[x - a.len()]
        }),
{
}

/// The character standing at each position of an author text.
proof fn lemma_author_text_index(nm: Seq<char>, em: Option<Seq<char>>, x: int)
    requires
        0 <= x < author_text(nm, em).len(),
    ensures
        match em {
            Some(e) => author_text(nm, em)[x] == (if x < nm.len() {
                nm[x]
            } else if x == nm.len() {
                '<'
            } else if x < nm.len() + 1 + e.len() {
                e[x - nm.len() - 1]
            } else {
                '>'
            }),
            None => author_text(nm, em)[x] == nm[x],
        },
{
    reveal_strlit("<");
    reveal_strlit(">");
    match em {
        Some(e) => {
            let p1 = nm + "<"@;
            let p2 = p1 + e;
            lemma_cat_index(p2, ">"@, x);
            if x < p2.len() {
                lemma_cat_index(p1, e, x);
                if x < p1.len() {
                    lemma_cat_index(nm, "<"@, x);
                }
            }
        },
        None => {},
    }
}

/// The character standing at each position of a quoted text.
proof fn lemma_quote_text_index(tt: Seq<char>, x: int)
    requires
        0 <= x < tt.len() + 2,
    ensures
        quote_text(tt)[x] == (if x == 0 {
            '"'
        } else if x <= tt.len() {
            tt[x - 1]
        } else {
            '"'
        }),
{
    reveal_strlit("\"");
    let p1 = "\""@ + tt;
    lemma_cat_index(p1, "\""@, x);
    if x < p1.len() {
        lemma_cat_index("\""@, tt, x);
    }
}

/// The text of one author, optionally quoted, standing at position `i` of
/// `s` and followed by nothing that the author rule would also consume,
/// parses to exactly that author, ending right after the text.
pub proof fn lemma_author_text_parses(
    s: Seq<char>,
    i: int,
    nm: Seq<char>,
    em: Option<Seq<char>>,
    q: bool,
)
    requires
        valid_name(nm),
        valid_email(em),
        0 <= i,
        i + (if q {
            quote_text(author_text(nm, em)).len() as int
        } else {
            author_text(nm, em).len() as int
        }) <= s.len(),
        s.subrange(
            i,
            i + (if q {
                quote_text(author_text(nm, em)).len() as int
            } else {
                author_text(nm, em).len() as int
            }),
        ) == (if q {
            quote_text(author_text(nm, em))
        } else {
            author_text(nm, em)
        }),
        !q && em is None ==> (i + author_text(nm, em).len() == s.len() || s[i + author_text(
            nm,
            em,
        ).len()] == ']' || s[i + author_text(nm, em).len()] == ','),
        !q && em is Some ==> (i + author_text(nm, em).len() == s.len() || s[i + author_text(
            nm,
            em,
        ).len()] != '"'),
    ensures
        spec_author(s, i) == Ok::<_, crate::model::Fail>(
            (
                author_value(nm, em),
                i + (if q {
                    quote_text(author_text(nm, em)).len() as int
                } else {
                    author_text(nm, em).len() as int
                }),
            ),
        ),
{
    reveal_strlit("\"");
    reveal_strlit("<");
    reveal_strlit(">");
    let at = author_text(nm, em);
    let t = if q {
        quote_text(at)
    } else {
        at
    };
    let alen = t.len() as int;
    let e_end = i + alen;
    let qo: int = if q {
        1
    } else {
        0
    };
    let nl = nm.len() as int;
    assert forall|x: int| 0 <= x < alen implies s[i + x] == t[x] by {
        assert(s.subrange(i, i + alen)[x] == s[i + x]);
    }
    // Character layout of the region.
    assert forall|x: int| 0 <= x < nl implies s[i + qo + x] == nm[x] by {
        lemma_author_text_index(nm, em, x);
        if q {
            lemma_quote_text_index(at, qo + x);
        }
        assert(s[i + (qo + x)] == t[qo + x]);
    }
    if q {
        lemma_quote_text_index(at, 0);
        lemma_quote_text_index(at, alen - 1);
        assert(s[i + 0] == t[0]);
        assert(s[i + (alen - 1)] == t[alen - 1]);
        assert(s[i] == '"');
        assert(s[e_end - 1] == '"');
    }
    let i1: int = i + qo;
    assert(s[i1] == nm[0]) by {
        assert(s[i + qo + 0] == nm[0]);
    }
    assert(is_name_char(nm[0]));
    // The optional leading quote is consumed exactly when `q` holds.
    assert((if i < s.len() && s[i] == '"' {
        i + 1
    } else {
        i
    }) == i1);
    // The name run covers the name and stops right after it.
    let j = i1 + nl;
    if em is Some {
        assert(s[j] == '<') by {
            lemma_author_text_index(nm, em, nl);
            if q {
                lemma_quote_text_index(at, qo + nl);
            }
            assert(s[i + (qo + nl)] == t[qo + nl]);
        }
    } else if q {
        assert(s[j] == '"') by {
            lemma_quote_text_index(at, qo + nl);
            assert(s[i + (qo + nl)] == t[qo + nl]);
        }
    }
    assert forall|k: int| i1 <= k < j implies name_char_p()(s[k]) by {
        let x = k - i1;
        assert(s[i + qo + x] == nm[x]);
        assert(is_name_char(nm[x]));
    }
    lemma_scan_is(s, i1, j, name_char_p());
    // Trim bounds transfer from `nm` to the region.
    lemma_trim_bounds(nm);
    let a0 = trim_from(nm, 0);
    let b0 = trim_back(nm, a0, nl);
    assert forall|k: int| i1 <= k < i1 + a0 implies trim_p()(s[k]) by {
        let x = k - i1;
        assert(s[i + qo + x] == nm[x]);
        assert(is_trim_char(nm[x]));
    }
    assert(s[i + qo + a0] == nm[a0]);
    lemma_scan_is(s, i1, i1 + a0, trim_p());
    assert forall|k: int| i1 + b0 <= k < j implies trim_p()(s[k]) by {
        let x = k - i1;
        assert(s[i + qo + x] == nm[x]);
        assert(is_trim_char(nm[x]));
    }
    if b0 > 0 {
        assert(s[i + qo + (b0 - 1)] == nm[b0 - 1]);
    }
    lemma_scan_back_is(s, i1 + a0, j, i1 + b0, trim_p());
    assert(spec_name(s, i1) == Ok::<(int, int, int), crate::model::Fail>((i1 + a0, i1 + b0, j)));
    assert forall|k: int| 0 <= k < b0 - a0 implies s.subrange(i1 + a0, i1 + b0)[k] == nm.subrange(
        a0,
        b0,
    )[k] by {
        assert(s[i + qo + (a0 + k)] == nm[a0 + k]);
    }
    assert(s.subrange(i1 + a0, i1 + b0) =~= nm.subrange(a0, b0));
    match em {
        Some(e) => {
            let el = e.len() as int;
            assert forall|k: int| j + 1 <= k < j + 1 + el implies email_char_p()(s[k]) by {
                let x = k - i1;
                lemma_author_text_index(nm, em, x);
                if q {
                    lemma_quote_text_index(at, qo + x);
                }
                assert(s[i + (qo + x)] == t[qo + x]);
            }
            assert(s[j + 1 + el] == '>') by {
                lemma_author_text_index(nm, em, nl + 1 + el);
                if q {
                    lemma_quote_text_index(at, qo + nl + 1 + el);
                }
                assert(s[i + (qo + nl + 1 + el)] == t[qo + nl + 1 + el]);
            }
            lemma_scan_is(s, j + 1, j + 1 + el, email_char_p());
            assert(spec_email(s, j) == Ok::<(int, int, int), crate::model::Fail>(
                (j + 1, j + 1 + el, j + 2 + el),
            ));
            assert forall|k: int| 0 <= k < el implies s.subrange(j + 1, j + 1 + el)[k] == e[k] by {
                let x = nl + 1 + k;
                lemma_author_text_index(nm, em, x);
                if q {
                    lemma_quote_text_index(at, qo + x);
                }
                assert(s[i + (qo + x)] == t[qo + x]);
            }
            assert(s.subrange(j + 1, j + 1 + el) =~= e);
            let k = j + 2 + el;
            if q {
                assert(s[k] == '"') by {
                    lemma_quote_text_index(at, alen - 1);
                    assert(s[i + (alen - 1)] == t[alen - 1]);
                }
                assert(k + 1 == e_end);
            } else {
                assert(k == e_end);
            }
            assert(spec_author(s, i) == Ok::<(AuthorV, int), crate::model::Fail>(
                (author_value(nm, em), e_end),
            ));
        },
        None => {
            if q {
                assert(j + 1 == e_end);
            } else {
                assert(j == e_end);
            }
            assert(spec_author(s, i) == Ok::<(AuthorV, int), crate::model::Fail>(
                (author_value(nm, em), e_end),
            ));
        },
    }
}

/// Law: a string of the form `name <email>`, with a name free of reserved
/// characters and a non-empty email free of `>`, parses as one author whose
/// name is the trimmed name and whose email is present.
pub proof fn lemma_parse_name_email(nm: Seq<char>, em: Seq<char>)
    requires
        valid_name(nm),
        em.len() > 0,
        forall|x: int| 0 <= x < em.len() ==> em[x] != '>',
    ensures
        spec_parse_author(nm + " <"@ + em + ">"@) == Ok::<_, crate::model::Fail>(
            AuthorV { name: spec_trim(nm), email: Some(em) },
        ),
{
    reveal_strlit(" <");
    reveal_strlit("<");
    reveal_strlit(">");
    reveal_strlit(" ");
    let s = nm + " <"@ + em + ">"@;
    let nm2 = nm.push(' ');
    lemma_trim_pad(nm);
    assert(valid_name(nm2));
    assert(s =~= author_text(nm2, Some(em))) by {
        assert(author_text(nm2, Some(em)) == nm2 + "<"@ + em + ">"@);
    }
    assert(s.subrange(0, s.len() as int) =~= s);
    lemma_author_text_parses(s, 0, nm2, Some(em), false);
    assert(spec_author(s, 0) == Ok::<_, crate::model::Fail>(
        (author_value(nm2, Some(em)), s.len() as int),
    ));
}

/// Law: a string consisting of a name alone, free of reserved characters,
/// parses as one author with no email.
pub proof fn lemma_parse_name_only(nm: Seq<char>)
    requires
        valid_name(nm),
    ensures
        spec_parse_author(nm) == Ok::<_, crate::model::Fail>(
            AuthorV { name: spec_trim(nm), email: None },
        ),
{
    assert(nm.subrange(0, nm.len() as int) =~= nm);
    assert(nm =~= author_text(nm, None));
    lemma_author_text_parses(nm, 0, nm, None, false);
}

/// Law: re-parsing the canonical rendering of an author gives that author
/// back, provided the name is non-empty, trimmed, and free of the reserved
/// delimiters, and the email, if present, is non-empty and free of `>`.
pub proof fn lemma_render_reparse(a: AuthorV)
    requires
        a.name.len() > 0,
        forall|x: int| 0 <= x < a.name.len() ==> is_name_char(a.name[x]),
        spec_trim(a.name) == a.name,
        valid_email(a.email),
    ensures
        spec_parse_author(crate::model::spec_render_author(a)) == Ok::<_, crate::model::Fail>(a),
{
    match a.email {
        None => {
            lemma_parse_name_only(a.name);
        },
        Some(e) => {
            lemma_parse_name_email(a.name, e);
            assert(crate::model::spec_render_author(a) == a.name + " <"@ + e + ">"@);
        },
    }
    assert(AuthorV { name: spec_trim(a.name), email: a.email } == a);
}

/// Law: input that is empty or all whitespace fails to parse, both as a
/// single author and as an author list.
pub proof fn lemma_blank_input_fails(s: Seq<char>)
    requires
        forall|x: int| 0 <= x < s.len() ==> is_trim_char(s[x]),
    ensures
        spec_parse_author(s) is Err,
        spec_parse_authors(s) is Err,
{
    let n = s.len() as int;
    assert forall|k: int| 0 <= k < n implies name_char_p()(s[k]) by {
        assert(is_trim_char(s[k]));
    }
    assert forall|k: int| 0 <= k < n implies trim_p()(s[k]) by {
        assert(is_trim_char(s[k]));
    }
    lemma_scan_is(s, 0, n, name_char_p());
    lemma_scan_is(s, 0, n, trim_p());
    let m = crate::model::blank_end(s, 0);
    lemma_scan(s, 0, blank_p());
    lemma_scan_is(s, m, n, name_char_p());
    lemma_scan_is(s, m, n, trim_p());
}

/// Law: input of the form `name<tail>` where `tail` never closes the email
/// with a `>` fails, at a position at or after the `<`.
pub proof fn lemma_unterminated_email(nm: Seq<char>, tail: Seq<char>)
    requires
        valid_name(nm),
        forall|x: int| 0 <= x < tail.len() ==> tail[x] != '>',
    ensures
        ({
            let s = nm + "<"@ + tail;
            spec_parse_author(s) matches Err(f) && f.pos >= nm.len()
        }),
{
    reveal_strlit("<");
    let s = nm + "<"@ + tail;
    let nl = nm.len() as int;
    let n = s.len() as int;
    assert forall|x: int| 0 <= x < n implies s[x] == (if x < nl {
        nm[x]
    } else if x == nl {
        '<'
    } else {
        tail[x - nl - 1]
    }) by {
        lemma_cat_index(nm + "<"@, tail, x);
        if x < nl + 1 {
            lemma_cat_index(nm, "<"@, x);
        }
    }
    assert forall|k: int| 0 <= k < nl implies name_char_p()(s[k]) by {
        assert(is_name_char(nm[k]));
    }
    lemma_scan_is(s, 0, nl, name_char_p());
    lemma_trim_bounds(nm);
    let a0 = trim_from(nm, 0);
    let b0 = trim_back(nm, a0, nl);
    assert forall|k: int| 0 <= k < a0 implies trim_p()(s[k]) by {
        assert(is_trim_char(nm[k]));
    }
    lemma_scan_is(s, 0, a0, trim_p());
    assert forall|k: int| b0 <= k < nl implies trim_p()(s[k]) by {
        assert(is_trim_char(nm[k]));
    }
    lemma_scan_back_is(s, a0, nl, b0, trim_p());
    assert(spec_name(s, 0) == Ok::<(int, int, int), crate::model::Fail>((a0, b0, nl)));
    assert forall|k: int| nl + 1 <= k < n implies email_char_p()(s[k]) by {
        assert(s[k] == tail[k - nl - 1]);
    }
    lemma_scan_is(s, nl + 1, n, email_char_p());
}

/// A text wrapped in square brackets.
pub open spec fn bracket_text(t: Seq<char>) -> Seq<char> {
    "["@ + t + "]"@
}

/// Law: a single author, wrapped in quotes, in brackets, in both or in
/// neither, parses as a list to the same one-element result.
pub proof fn lemma_wrap_single(nm: Seq<char>, em: Option<Seq<char>>, q: bool, br: bool)
    requires
        valid_name(nm),
        valid_email(em),
        !is_blank(nm[0]),
        nm[0] != '[',
    ensures
        ({
            let base = if q {
                quote_text(author_text(nm, em))
            } else {
                author_text(nm, em)
            };
            let w = if br {
                bracket_text(base)
            } else {
                base
            };
            spec_parse_authors(w) == Ok::<Seq<AuthorV>, crate::model::Fail>(
                seq![author_value(nm, em)],
            )
        }),
{
    reveal_strlit("[");
    reveal_strlit("]");
    reveal_strlit("\"");
    let base = if q {
        quote_text(author_text(nm, em))
    } else {
        author_text(nm, em)
    };
    let w = if br {
        bracket_text(base)
    } else {
        base
    };
    let p: int = if br {
        1
    } else {
        0
    };
    let bl = base.len() as int;
    let n = w.len() as int;
    assert forall|x: int| 0 <= x < bl implies w[p + x] == base[x] by {
        if br {
            lemma_cat_index("["@ + base, "]"@, p + x);
            lemma_cat_index("["@, base, p + x);
        }
    }
    if br {
        lemma_cat_index("["@ + base, "]"@, 0);
        lemma_cat_index("["@, base, 0);
        assert(w[0] == '[');
        lemma_cat_index("["@ + base, "]"@, n - 1);
        assert(w[n - 1] == ']');
    }
    if q {
        lemma_quote_text_index(author_text(nm, em), 0);
        assert(base[0] == '"');
    } else {
        lemma_author_text_index(nm, em, 0);
        assert(base[0] == nm[0]);
    }
    assert(w[p + 0] == base[0]);
    // The optional opening bracket is consumed exactly when `br` holds.
    assert((if 0 < n && w[0] == '[' {
        1int
    } else {
        0int
    }) == p);
    // No blanks follow it.
    lemma_scan_is(w, p, p, blank_p());
    // The author text parses there.
    assert forall|x: int| 0 <= x < bl implies w.subrange(p, p + bl)[x] == base[x] by {
        assert(w.subrange(p, p + bl)[x] == w[p + x]);
    }
    assert(w.subrange(p, p + bl) =~= base);
    lemma_author_text_parses(w, p, nm, em, q);
    let k = p + bl;
    assert(spec_author(w, p) == Ok::<(AuthorV, int), crate::model::Fail>(
        (author_value(nm, em), k),
    ));
    // The list ends there: no separator follows.
    lemma_scan_is(w, k, k, blank_p());
    assert(spec_separator(w, k) is None);
    assert(spec_author_list(w, k, seq![author_value(nm, em)])
        == Ok::<(Seq<AuthorV>, int), crate::model::Fail>((seq![author_value(nm, em)], k)));
}

/// A part of an author list: a name and an optional email, both in the
/// form the grammar accepts, the name starting with neither a blank nor a
/// bracket so that it begins the author it belongs to.
pub open spec fn valid_part(pt: (Seq<char>, Option<Seq<char>>)) -> bool {
    &&& valid_name(pt.0)
    &&& valid_email(pt.1)
    &&& !is_blank(pt.0[0])
    &&& pt.0[0] != '['
}

/// The author value a part denotes.
pub open spec fn part_value(pt: (Seq<char>, Option<Seq<char>>)) -> AuthorV {
    author_value(pt.0, pt.1)
}

/// A run of blanks.
pub open spec fn all_blanks(s: Seq<char>) -> bool {
    forall|x: int| 0 <= x < s.len() ==> is_blank(s[x])
}

/// The text of the remainder of an author list: for each remaining part, a
/// run of blanks, a comma, another run of blanks, and the part's author
/// text.
pub open spec fn list_tail_text(
    pres: Seq<Seq<char>>,
    pads: Seq<Seq<char>>,
    parts: Seq<(Seq<char>, Option<Seq<char>>)>,
) -> Seq<char>
    decreases parts.len(),
{
    if parts.len() == 0 {
        Seq::empty()
    } else {
        pres[0] + ","@ + pads[0] + author_text(parts[0].0, parts[0].1) + list_tail_text(
            pres.drop_first(),
            pads.drop_first(),
            parts.drop_first(),
        )
    }
}

/// Law (tail form): when the rest of the input from `k` on is a sequence
/// of `, author` groups, the list rule parses them all, in order, appended
/// to what was already accumulated.
pub proof fn lemma_list_tail_parses(
    s: Seq<char>,
    k: int,
    acc: Seq<AuthorV>,
    pres: Seq<Seq<char>>,
    pads: Seq<Seq<char>>,
    parts: Seq<(Seq<char>, Option<Seq<char>>)>,
)
    requires
        0 <= k <= s.len(),
        pres.len() == parts.len(),
        pads.len() == parts.len(),
        forall|x: int| 0 <= x < parts.len() ==> valid_part(#[trigger] parts[x]),
        forall|x: int| 0 <= x < pres.len() ==> all_blanks(#[trigger] pres[x]),
        forall|x: int| 0 <= x < pads.len() ==> all_blanks(#[trigger] pads[x]),
        forall|x: int|
            0 <= x < parts.len() - 1 ==> ((#[trigger] parts[x]).1 is None ==> pres[x
                + 1].len() == 0),
        s.subrange(k, s.len() as int) == list_tail_text(pres, pads, parts),
    ensures
        spec_author_list(s, k, acc) == Ok::<(Seq<AuthorV>, int), crate::model::Fail>(
            (acc + parts.map_values(|pt: (Seq<char>, Option<Seq<char>>)| part_value(pt)), s.len() as int),
        ),
    decreases parts.len(),
{
    reveal_strlit(",");
    let n = s.len() as int;
    let lt = list_tail_text(pres, pads, parts);
    assert forall|y: int| 0 <= y < lt.len() implies s[k + y] == lt[y] by {
        assert(s.subrange(k, n)[y] == s[k + y]);
    }
    if parts.len() == 0 {
        assert(lt.len() == 0);
        assert(s.subrange(k, n).len() == n - k);
        assert(s.subrange(k, n) == lt);
        assert(k == n);
        assert(spec_separator(s, k) is None);
        assert(acc + parts.map_values(|pt: (Seq<char>, Option<Seq<char>>)| part_value(pt)) =~= acc);
    } else {
        let pre0 = pres[0];
        let pad0 = pads[0];
        let nm0 = parts[0].0;
        let em0 = parts[0].1;
        let at0 = author_text(nm0, em0);
        let el = pre0.len() as int;
        let pl = pad0.len() as int;
        let al = at0.len() as int;
        let rest_t = list_tail_text(pres.drop_first(), pads.drop_first(), parts.drop_first());
        assert(lt == pre0 + ","@ + pad0 + at0 + rest_t);
        assert forall|y: int| 0 <= y < lt.len() implies lt[y] == (if y < el {
            pre0[y]
        } else if y == el {
            ','
        } else if y < el + 1 + pl {
            pad0[y - el - 1]
        } else if y < el + 1 + pl + al {
            at0[y - el - 1 - pl]
        } else {
            rest_t[y - el - 1 - pl - al]
        }) by {
            lemma_cat_index(pre0 + ","@ + pad0 + at0, rest_t, y);
            if y < el + 1 + pl + al {
                lemma_cat_index(pre0 + ","@ + pad0, at0, y);
                if y < el + 1 + pl {
                    lemma_cat_index(pre0 + ","@, pad0, y);
                    if y < el + 1 {
                        lemma_cat_index(pre0, ","@, y);
                    }
                }
            }
        }
        // The separator: blanks, the comma at `k + el`, more blanks.
        assert forall|x: int| k <= x < k + el implies blank_p()(s[x]) by {
            assert(s[k + (x - k)] == lt[x - k]);
            assert(is_blank(pre0[x - k]));
        }
        assert(lt[el] == ',');
        assert(s[k + el] == ',');
        assert(!is_blank(','));
        lemma_scan_is(s, k, k + el, blank_p());
        let j = k + el + 1 + pl;
        assert forall|x: int| k + el + 1 <= x < j implies blank_p()(s[x]) by {
            assert(s[k + (x - k)] == lt[x - k]);
            assert(lt[x - k] == pad0[x - k - el - 1]);
            assert(is_blank(pad0[x - k - el - 1]));
        }
        lemma_author_text_index(nm0, em0, 0);
        assert(lt[el + 1 + pl] == at0[0]);
        assert(s[k + (el + 1 + pl)] == at0[0]);
        assert(!is_blank(s[j]));
        lemma_scan_is(s, k + el + 1, j, blank_p());
        assert(spec_separator(s, k) == Some(j));
        // The author text at `j`.
        assert forall|x: int| 0 <= x < al implies s.subrange(j, j + al)[x] == at0[x] by {
            assert(s.subrange(j, j + al)[x] == s[j + x]);
            assert(s[k + (el + 1 + pl + x)] == lt[el + 1 + pl + x]);
        }
        assert(s.subrange(j, j + al) =~= at0);
        if j + al < n {
            assert(s[k + (el + 1 + pl + al)] == lt[el + 1 + pl + al]);
            assert(rest_t.len() > 0);
            assert(parts.drop_first().len() > 0);
            let re = pres.drop_first();
            let rp = pads.drop_first();
            let rr = parts.drop_first();
            assert(rest_t == re[0] + ","@ + rp[0] + author_text(rr[0].0, rr[0].1)
                + list_tail_text(re.drop_first(), rp.drop_first(), rr.drop_first()));
            lemma_cat_index(
                re[0] + ","@ + rp[0] + author_text(rr[0].0, rr[0].1),
                list_tail_text(re.drop_first(), rp.drop_first(), rr.drop_first()),
                0,
            );
            lemma_cat_index(re[0] + ","@ + rp[0], author_text(rr[0].0, rr[0].1), 0);
            lemma_cat_index(re[0] + ","@, rp[0], 0);
            lemma_cat_index(re[0], ","@, 0);
            assert(re[0] == pres[1]);
            assert(parts[0].1 is None ==> pres[1].len() == 0);
            if re[0].len() == 0 {
                assert(rest_t[0] == ',');
            } else {
                assert(rest_t[0] == re[0][0]);
                assert(is_blank(re[0][0]));
            }
            assert(s[j + al] == rest_t[0]);
            assert(em0 is None ==> s[j + al] == ',');
            assert(s[j + al] != '"');
        }
        lemma_author_text_parses(s, j, nm0, em0, false);
        let k2 = j + al;
        assert(spec_author(s, j) == Ok::<(AuthorV, int), crate::model::Fail>(
            (author_value(nm0, em0), k2),
        ));
        // The remainder, by induction.
        assert forall|x: int| 0 <= x < rest_t.len() implies s.subrange(k2, n)[x] == rest_t[x] by {
            assert(s.subrange(k2, n)[x] == s[k2 + x]);
            assert(s[k + (el + 1 + pl + al + x)] == lt[el + 1 + pl + al + x]);
        }
        assert(s.subrange(k2, n) =~= rest_t);
        lemma_list_tail_parses(s, k2, acc.push(author_value(nm0, em0)), pres.drop_first(),
            pads.drop_first(), parts.drop_first());
        let f = |pt: (Seq<char>, Option<Seq<char>>)| part_value(pt);
        assert(acc.push(author_value(nm0, em0)) + parts.drop_first().map_values(f) =~= acc
            + parts.map_values(f)) by {
            assert(parts.map_values(f).len() == parts.len());
            assert(parts.drop_first().map_values(f).len() == parts.len() - 1);
            assert forall|x: int| 0 <= x < parts.len() - 1 implies parts.drop_first().map_values(
                f,
            )[x] == parts.map_values(f)[x + 1] by {
                assert(parts.drop_first()[x] == parts[x + 1]);
            }
        }
    }
}

/// Law: one or more authors joined by commas, with arbitrary blanks around
/// each comma, parse as a list of the same length in left-to-right input
/// order. Blanks before a comma stand on their own only after an email;
/// after a plain name they belong to the name's own run and are trimmed.
pub proof fn lemma_parse_author_list(
    pres: Seq<Seq<char>>,
    pads: Seq<Seq<char>>,
    parts: Seq<(Seq<char>, Option<Seq<char>>)>,
)
    requires
        parts.len() >= 1,
        pres.len() == parts.len() - 1,
        pads.len() == parts.len() - 1,
        forall|x: int| 0 <= x < parts.len() ==> valid_part(#[trigger] parts[x]),
        forall|x: int| 0 <= x < pres.len() ==> all_blanks(#[trigger] pres[x]),
        forall|x: int| 0 <= x < pads.len() ==> all_blanks(#[trigger] pads[x]),
        forall|x: int|
            0 <= x < parts.len() - 1 ==> ((#[trigger] parts[x]).1 is None ==> pres[x].len()
                == 0),
    ensures
        ({
            let s = author_text(parts[0].0, parts[0].1) + list_tail_text(
                pres,
                pads,
                parts.drop_first(),
            );
            spec_parse_authors(s) == Ok::<Seq<AuthorV>, crate::model::Fail>(
                parts.map_values(|pt: (Seq<char>, Option<Seq<char>>)| part_value(pt)),
            )
        }),
        parts.map_values(|pt: (Seq<char>, Option<Seq<char>>)| part_value(pt)).len()
            == parts.len(),
{
    reveal_strlit(",");
    let nm0 = parts[0].0;
    let em0 = parts[0].1;
    let at0 = author_text(nm0, em0);
    let al = at0.len() as int;
    let rest_t = list_tail_text(pres, pads, parts.drop_first());
    let s = at0 + rest_t;
    let n = s.len() as int;
    assert forall|x: int| 0 <= x < al implies s[x] == at0[x] by {
        lemma_cat_index(at0, rest_t, x);
    }
    lemma_author_text_index(nm0, em0, 0);
    assert(s[0] == nm0[0]);
    // No opening bracket, no leading blanks.
    lemma_scan_is(s, 0, 0, blank_p());
    // The first author stands at the start.
    assert forall|x: int| 0 <= x < al implies s.subrange(0, al)[x] == at0[x] by {
        assert(s.subrange(0, al)[x] == s[x]);
    }
    assert(s.subrange(0, al) =~= at0);
    if al < n {
        assert(rest_t.len() > 0);
        assert(parts.drop_first().len() > 0);
        let rr = parts.drop_first();
        assert(rest_t == pres[0] + ","@ + pads[0] + author_text(rr[0].0, rr[0].1)
            + list_tail_text(pres.drop_first(), pads.drop_first(), rr.drop_first()));
        lemma_cat_index(
            pres[0] + ","@ + pads[0] + author_text(rr[0].0, rr[0].1),
            list_tail_text(pres.drop_first(), pads.drop_first(), rr.drop_first()),
            0,
        );
        lemma_cat_index(pres[0] + ","@ + pads[0], author_text(rr[0].0, rr[0].1), 0);
        lemma_cat_index(pres[0] + ","@, pads[0], 0);
        lemma_cat_index(pres[0], ","@, 0);
        if pres[0].len() == 0 {
            assert(rest_t[0] == ',');
        } else {
            assert(rest_t[0] == pres[0][0]);
            assert(is_blank(pres[0][0]));
        }
        lemma_cat_index(at0, rest_t, al);
        assert(s[al] == rest_t[0]);
        assert(em0 is None ==> s[al] == ',');
        assert(s[al] != '"');
    }
    lemma_author_text_parses(s, 0, nm0, em0, false);
    assert(spec_author(s, 0) == Ok::<(AuthorV, int), crate::model::Fail>(
        (author_value(nm0, em0), al),
    ));
    // The rest of the list.
    assert forall|x: int| 0 <= x < rest_t.len() implies s.subrange(al, n)[x] == rest_t[x] by {
        assert(s.subrange(al, n)[x] == s[al + x]);
        lemma_cat_index(at0, rest_t, al + x);
    }
    assert(s.subrange(al, n) =~= rest_t);
    lemma_list_tail_parses(s, al, seq![author_value(nm0, em0)], pres, pads,
        parts.drop_first());
    // After the list: the end of the input, no closing bracket.
    let f = |pt: (Seq<char>, Option<Seq<char>>)| part_value(pt);
    assert(seq![author_value(nm0, em0)] + parts.drop_first().map_values(f) =~= parts.map_values(
        f,
    )) by {
        assert forall|x: int| 0 < x < parts.len() implies parts.drop_first().map_values(f)[x - 1]
            == parts.map_values(f)[x] by {
            assert(parts.drop_first()[x - 1] == parts[x]);
        }
    }
}

} // verus!
