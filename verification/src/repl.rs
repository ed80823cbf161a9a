use vstd::prelude::*;
use vstd::std_specs::iter::IteratorSpec;

verus! {

broadcast use vstd::string::group_string_axioms;

/// The characters of `src`, in order.
fn chars_of(src: &str) -> (v: Vec<char>)
    ensures
        v@ == src@,
{
    let mut v: Vec<char> = Vec::new();
    for c in iter: src.chars()
        invariant
            v@ == iter.seq().take(iter.index() as int),
    {
        v.push(c);
    }
    assert(v@ =~= src@);
    v
}

/// Where the scan for open brackets stands: the braces and parentheses
/// opened and not yet closed, and whether it is inside a string or inside a
/// `//` comment.
pub struct Balance {
    pub braces: int,
    pub parens: int,
    pub in_string: bool,
    pub in_comment: bool,
}

/// The scan of `s` from `i` on, from the state `b`: quotes open and close
/// strings, `//` outside a string opens a comment that ends at the next
/// newline, and brackets inside strings and comments do not count.
pub open spec fn balance_from(s: Seq<char>, i: int, b: Balance) -> Balance
    decreases s.len() - i,
{
    if i < 0 || i >= s.len() {
        b
    } else if b.in_comment {
        balance_from(s, i + 1, Balance { in_comment: s[i] != '\n', ..b })
    } else if b.in_string {
        balance_from(s, i + 1, Balance { in_string: s[i] != '"', ..b })
    } else if s[i] == '"' {
        balance_from(s, i + 1, Balance { in_string: true, ..b })
    } else if s[i] == '/' && i + 1 < s.len() && s[i + 1] == '/' {
        balance_from(s, i + 1, Balance { in_comment: true, ..b })
    } else {
        balance_from(
            s,
            i + 1,
            Balance {
                braces: b.braces + (if s[i] == '{' {
                    1int
                } else if s[i] == '}' {
                    -1int
                } else {
                    0int
                }),
                parens: b.parens + (if s[i] == '(' {
                    1int
                } else if s[i] == ')' {
                    -1int
                } else {
                    0int
                }),
                in_string: false,
                in_comment: false,
            },
        )
    }
}

/// Whether a text is a whole input: no string left open, and no brace or
/// parenthesis opened more often than closed.
pub open spec fn is_complete_input(s: Seq<char>) -> bool {
    let b = balance_from(s, 0, Balance { braces: 0, parens: 0, in_string: false, in_comment: false });
    !b.in_string && b.braces <= 0 && b.parens <= 0
}

/// How often `c` occurs in `s` from `i` on.
pub open spec fn occurrences_from(s: Seq<char>, i: int, c: char) -> int
    decreases s.len() - i,
{
    if i < 0 || i >= s.len() {
        0
    } else {
        (if s[i] == c {
            1int
        } else {
            0int
        }) + occurrences_from(s, i + 1, c)
    }
}

/// A text without quotes and without two slashes in a row.
pub open spec fn plain_text(s: Seq<char>) -> bool {
    &&& forall|i: int| 0 <= i < s.len() ==> #[trigger] s[i] != '"'
    &&& forall|i: int| 0 <= i < s.len() - 1 ==> !(#[trigger] s[i] == '/' && s[i + 1] == '/')
}

proof fn lemma_plain_balance(s: Seq<char>, i: int, b: Balance)
    requires
        plain_text(s),
        0 <= i <= s.len(),
        !b.in_string,
        !b.in_comment,
    ensures
        balance_from(s, i, b) == (Balance {
            braces: b.braces + occurrences_from(s, i, '{') - occurrences_from(s, i, '}'),
            parens: b.parens + occurrences_from(s, i, '(') - occurrences_from(s, i, ')'),
            in_string: false,
            in_comment: false,
        }),
    decreases s.len() - i,
{
    if i < s.len() {
        assert(s[i] != '"');
        if i + 1 < s.len() {
            assert(!(s[i] == '/' && s[i + 1] == '/'));
        }
        let next = Balance {
            braces: b.braces + (if s[i] == '{' {
                1int
            } else if s[i] == '}' {
                -1int
            } else {
                0int
            }),
            parens: b.parens + (if s[i] == '(' {
                1int
            } else if s[i] == ')' {
                -1int
            } else {
                0int
            }),
            in_string: false,
            in_comment: false,
        };
        lemma_plain_balance(s, i + 1, next);
    }
}

/// Outside strings and comments only brackets count: a text with no quote
/// and no `//` (a single `/`, as in a division, is an ordinary character)
/// is complete exactly when it has no more `{` than `}` and no more `(`
/// than `)`.
pub proof fn lemma_plain_input_complete(s: Seq<char>)
    requires
        plain_text(s),
    ensures
        is_complete_input(s) == (occurrences_from(s, 0, '{') <= occurrences_from(s, 0, '}')
            && occurrences_from(s, 0, '(') <= occurrences_from(s, 0, ')')),
{
    lemma_plain_balance(s, 0, Balance { braces: 0, parens: 0, in_string: false, in_comment: false });
}

proof fn lemma_skip_comment(s: Seq<char>, i: int, j: int, b: Balance)
    requires
        0 <= i <= j <= s.len(),
        b.in_comment,
        !b.in_string,
        forall|k: int| i <= k < j ==> #[trigger] s[k] != '\n',
    ensures
        balance_from(s, i, b) == balance_from(s, j, b),
    decreases j - i,
{
    if i < j {
        lemma_skip_comment(s, i + 1, j, b);
    }
}

/// A `//` comment reaches to the end of its line: what lies between the
/// two slashes and the newline does not count, and the scan goes on after
/// the newline as if the comment were not there; a comment with no newline
/// after it reaches to the end of the text.
pub proof fn lemma_comment_ends_at_newline(s: Seq<char>, i: int, j: int, b: Balance)
    requires
        0 <= i,
        i + 2 <= j <= s.len(),
        s[i] == '/',
        s[i + 1] == '/',
        !b.in_string,
        !b.in_comment,
        forall|k: int| i + 2 <= k < j ==> #[trigger] s[k] != '\n',
        j == s.len() || s[j] == '\n',
    ensures
        j < s.len() ==> balance_from(s, i, b) == balance_from(s, j + 1, b),
        j == s.len() ==> balance_from(s, i, b) == (Balance { in_comment: true, ..b }),
{
    let c = Balance { in_comment: true, ..b };
    assert(balance_from(s, i, b) == balance_from(s, i + 1, c));
    assert(balance_from(s, i + 1, c) == balance_from(s, i + 2, c));
    lemma_skip_comment(s, i + 2, j, c);
}

proof fn lemma_skip_string(s: Seq<char>, i: int, q: int, b: Balance)
    requires
        0 <= i <= q <= s.len(),
        b.in_string,
        !b.in_comment,
        forall|k: int| i <= k < q ==> #[trigger] s[k] != '"',
    ensures
        balance_from(s, i, b) == balance_from(s, q, b),
    decreases q - i,
{
    if i < q {
        lemma_skip_string(s, i + 1, q, b);
    }
}

/// Brackets in a string do not count: from an opening quote, the scan goes
/// on after the closing quote as if the string were not there. A string
/// left open makes the input incomplete.
pub proof fn lemma_strings_do_not_count(s: Seq<char>, i: int, q: int, b: Balance)
    requires
        0 <= i < q <= s.len(),
        s[i] == '"',
        !b.in_string,
        !b.in_comment,
        forall|k: int| i < k < q ==> #[trigger] s[k] != '"',
        q == s.len() || s[q] == '"',
    ensures
        q < s.len() ==> balance_from(s, i, b) == balance_from(s, q + 1, b),
        q == s.len() ==> balance_from(s, i, b).in_string,
{
    let c = Balance { in_string: true, ..b };
    assert(balance_from(s, i, b) == balance_from(s, i + 1, c));
    lemma_skip_string(s, i + 1, q, c);
}

/// Whether the text typed so far is a whole input, or more lines must follow
/// (an open string, or more `{` than `}`, or more `(` than `)`; strings and
/// `//` comments, up to the end of their line, do not count).
pub fn input_is_complete(src: &str) -> (r: bool)
    requires
        src@.len() < 0x7fff_ffff_ffff_ffff,
    ensures
        r == is_complete_input(src@),
{
    let chars = chars_of(src);
    let ghost s = src@;
    let mut brace: i64 = 0;
    let mut paren: i64 = 0;
    let mut in_string = false;
    let mut in_comment = false;
    let mut i: usize = 0;
    while i < chars.len()
        invariant
            chars@ == s,
            s == src@,
            s.len() < 0x7fff_ffff_ffff_ffff,
            0 <= i <= s.len(),
            -(i as int) <= brace <= i,
            -(i as int) <= paren <= i,
            balance_from(s, 0, Balance { braces: 0, parens: 0, in_string: false, in_comment: false }) == balance_from(
                s,
                i as int,
                Balance { braces: brace as int, parens: paren as int, in_string: in_string, in_comment: in_comment },
            ),
            !(in_string && in_comment),
        decreases chars.len() - i,
    {
        let c = chars[i];
        if in_comment {
            if c == '\n' {
                in_comment = false;
            }
            i += 1;
            continue;
        }
        if in_string {
            if c == '"' {
                in_string = false;
            }
            i += 1;
            continue;
        }
        if c == '"' {
            in_string = true;
            i += 1;
            continue;
        }
        if c == '/' && i + 1 < chars.len() && chars[i + 1] == '/' {
            in_comment = true;
            i += 1;
            continue;
        }
        if c == '{' {
            brace += 1;
        } else if c == '}' {
            brace -= 1;
        } else if c == '(' {
            paren += 1;
        } else if c == ')' {
            paren -= 1;
        }
        i += 1;
    }
    if in_string {
        return false;
    }
    return brace <= 0 && paren <= 0;
}

} // verus!
