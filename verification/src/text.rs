//! Verified text building and comparison primitives.
//!
//! The sync engine renders identifiers in decimal, quotes comment bodies,
//! joins attachment lines and orders identifier lists. Everything here is
//! specified at the level of character sequences.

use vstd::prelude::*;
use vstd::string::StrSliceExecFns;
use vstd::string::StringExecFns;

verus! {

/// Relies on `String::push`: appends the one character to the end of the string.
#[verifier::external_body]
pub(crate) fn push_char(s: &mut String, c: char)
    ensures
        final(s)@ == old(s)@.push(c),
{
    s.push(c);
}

/// The decimal digit character for `d` (`d < 10`).
pub open spec fn digit_char(d: u64) -> char {
    if d == 0 {
        '0'
    } else if d == 1 {
        '1'
    } else if d == 2 {
        '2'
    } else if d == 3 {
        '3'
    } else if d == 4 {
        '4'
    } else if d == 5 {
        '5'
    } else if d == 6 {
        '6'
    } else if d == 7 {
        '7'
    } else if d == 8 {
        '8'
    } else {
        '9'
    }
}

/// The decimal digits of `n`, most significant first, no leading zeros
/// (a single `'0'` for zero).
pub open spec fn dec_digits(n: u64) -> Seq<char>
    decreases n,
{
    if n < 10 {
        seq![digit_char(n)]
    } else {
        dec_digits((n / 10) as u64).push(digit_char((n % 10) as u64))
    }
}

fn digit_str(d: u64) -> (r: &'static str)
    requires
        d < 10,
    ensures
        r@ =~= seq![digit_char(d)],
{
    proof {
        reveal_strlit("0");
        reveal_strlit("1");
        reveal_strlit("2");
        reveal_strlit("3");
        reveal_strlit("4");
        reveal_strlit("5");
        reveal_strlit("6");
        reveal_strlit("7");
        reveal_strlit("8");
        reveal_strlit("9");
    }
    if d == 0 {
        "0"
    } else if d == 1 {
        "1"
    } else if d == 2 {
        "2"
    } else if d == 3 {
        "3"
    } else if d == 4 {
        "4"
    } else if d == 5 {
        "5"
    } else if d == 6 {
        "6"
    } else if d == 7 {
        "7"
    } else if d == 8 {
        "8"
    } else {
        "9"
    }
}

/// Render `n` in decimal, exactly as `dec_digits` describes it.
pub fn u64_to_dec(n: u64) -> (s: String)
    ensures
        s@ == dec_digits(n),
    decreases n,
{
    if n < 10 {
        digit_str(n).to_owned()
    } else {
        let mut s = u64_to_dec(n / 10);
        s.append(digit_str(n % 10));
        proof {
            assert(s@ =~= dec_digits(n));
        }
        s
    }
}

/// What one character of a comment body becomes under block quoting:
/// a newline restarts the quote prefix, everything else is kept.
pub open spec fn quote_char(c: char) -> Seq<char> {
    if c == '\n' {
        seq!['\n', '>', ' ']
    } else {
        seq![c]
    }
}

/// A comment body with every newline turned into a newline plus `"> "`,
/// so that the whole body stays inside one block quote.
pub open spec fn quoted(s: Seq<char>) -> Seq<char>
    decreases s.len(),
{
    if s.len() == 0 {
        Seq::empty()
    } else {
        quote_char(s[0]) + quoted(s.drop_first())
    }
}

proof fn lemma_quoted_append(a: Seq<char>, b: Seq<char>)
    ensures
        quoted(a + b) == quoted(a) + quoted(b),
    decreases a.len(),
{
    if a.len() == 0 {
        assert(a + b =~= b);
        assert(quoted(a) + quoted(b) =~= quoted(b));
    } else {
        assert((a + b).drop_first() =~= a.drop_first() + b);
        lemma_quoted_append(a.drop_first(), b);
        assert(quoted(a + b) =~= quoted(a) + quoted(b));
    }
}

/// Quote a comment body for a chat message, as `quoted` describes it.
pub fn quote_body(body: &str) -> (r: String)
    ensures
        r@ == quoted(body@),
{
    let len = body.unicode_len();
    let mut r = String::new();
    let mut i: usize = 0;
    while i < len
        invariant
            len == body@.len(),
            i <= len,
            r@ == quoted(body@.take(i as int)),
        decreases len - i,
    {
        let c = body.get_char(i);
        proof {
            assert(body@.take(i + 1 as int) =~= body@.take(i as int) + seq![body@[i as int]]);
            lemma_quoted_append(body@.take(i as int), seq![body@[i as int]]);
            assert(seq![c].drop_first() =~= Seq::<char>::empty());
            assert(quoted(Seq::<char>::empty()) =~= Seq::<char>::empty());
            assert(quoted(seq![c]) =~= quote_char(c));
        }
        if c == '\n' {
            proof {
                reveal_strlit("\n> ");
                assert("\n> "@ =~= seq!['\n', '>', ' ']);
            }
            r.append("\n> ");
        } else {
            push_char(&mut r, c);
            proof {
                assert(r@ =~= quoted(body@.take(i as int)) + quote_char(c));
            }
        }
        i = i + 1;
    }
    proof {
        assert(body@.take(len as int) =~= body@);
    }
    r
}

/// The lines joined with the separator between consecutive lines.
pub open spec fn joined_with(lines: Seq<Seq<char>>, sep: Seq<char>) -> Seq<char>
    decreases lines.len(),
{
    if lines.len() == 0 {
        Seq::empty()
    } else if lines.len() == 1 {
        lines[0]
    } else {
        lines[0] + sep + joined_with(lines.drop_first(), sep)
    }
}

proof fn lemma_joined_with_push(lines: Seq<Seq<char>>, sep: Seq<char>, x: Seq<char>)
    requires
        lines.len() > 0,
    ensures
        joined_with(lines.push(x), sep) == joined_with(lines, sep) + sep + x,
    decreases lines.len(),
{
    if lines.len() == 1 {
        assert(lines.push(x).drop_first() =~= seq![x]);
        assert(seq![x].drop_first() =~= Seq::<Seq<char>>::empty());
        assert(joined_with(seq![x], sep) =~= x);
        assert(joined_with(lines, sep) =~= lines[0]);
        assert(joined_with(lines.push(x), sep) =~= joined_with(lines, sep) + sep + x);
    } else {
        assert(lines.push(x).drop_first() =~= lines.drop_first().push(x));
        lemma_joined_with_push(lines.drop_first(), sep, x);
        assert(joined_with(lines.push(x), sep) =~= joined_with(lines, sep) + sep + x);
    }
}

/// Join the lines with a newline between consecutive lines.
pub fn join_lines(lines: &Vec<String>) -> (r: String)
    ensures
        r@ == joined_with(lines.deep_view(), "\n"@),
{
    if lines.len() == 0 {
        proof {
            assert(lines.deep_view().len() == 0);
        }
        return String::new();
    }
    let mut r = lines[0].clone();
    proof {
        assert(lines.deep_view().take(1) =~= seq![lines[0]@]);
    }
    let mut i: usize = 1;
    while i < lines.len()
        invariant
            1 <= i <= lines.len(),
            lines.deep_view().len() == lines.len(),
            forall|k: int| 0 <= k < lines.len() ==> lines.deep_view()[k] == lines@[k]@,
            r@ == joined_with(lines.deep_view().take(i as int), "\n"@),
        decreases lines.len() - i,
    {
        r.append("\n");
        r.append(lines[i].as_str());
        proof {
            assert(lines.deep_view().take(i + 1 as int) =~= lines.deep_view().take(
                i as int,
            ).push(lines@[i as int]@));
            lemma_joined_with_push(lines.deep_view().take(i as int), "\n"@, lines@[i as int]@);
        }
        i = i + 1;
    }
    proof {
        assert(lines.deep_view().take(lines.len() as int) =~= lines.deep_view());
    }
    r
}

/// Strict lexicographic order on character sequences, by code point.
/// For valid text this agrees with the byte order of its UTF-8 encoding,
/// the order the standard library sorts strings in.
pub open spec fn lex_lt(a: Seq<char>, b: Seq<char>) -> bool
    decreases a.len(),
{
    if b.len() == 0 {
        false
    } else if a.len() == 0 {
        true
    } else if a[0] != b[0] {
        (a[0] as int) < (b[0] as int)
    } else {
        lex_lt(a.drop_first(), b.drop_first())
    }
}

/// `lex_lt` is transitive.
pub proof fn lemma_lex_lt_transitive(a: Seq<char>, b: Seq<char>, c: Seq<char>)
    requires
        lex_lt(a, b),
        lex_lt(b, c),
    ensures
        lex_lt(a, c),
    decreases a.len(),
{
    if a.len() == 0 || b.len() == 0 || c.len() == 0 {
    } else if a[0] == b[0] && b[0] == c[0] {
        lemma_lex_lt_transitive(a.drop_first(), b.drop_first(), c.drop_first());
    }
}

/// `lex_lt` is total: two sequences not ordered either way are equal.
pub proof fn lemma_lex_lt_total(a: Seq<char>, b: Seq<char>)
    requires
        !lex_lt(a, b),
        !lex_lt(b, a),
    ensures
        a == b,
    decreases a.len(),
{
    if a.len() == 0 || b.len() == 0 {
        assert(a =~= b);
    } else if a[0] == b[0] {
        lemma_lex_lt_total(a.drop_first(), b.drop_first());
        assert(a =~= seq![a[0]] + a.drop_first());
        assert(b =~= seq![b[0]] + b.drop_first());
    } else {
        assert(a[0] == b[0]) by {
            assert((a[0] as int) == (b[0] as int));
        }
    }
}

/// Whether `a` comes strictly before `b` in lexicographic order.
pub fn str_lt(a: &str, b: &str) -> (r: bool)
    ensures
        r == lex_lt(a@, b@),
{
    let la = a.unicode_len();
    let lb = b.unicode_len();
    let mut i: usize = 0;
    proof {
        assert(a@.skip(0) =~= a@);
        assert(b@.skip(0) =~= b@);
    }
    loop
        invariant
            la == a@.len(),
            lb == b@.len(),
            i <= la,
            i <= lb,
            lex_lt(a@, b@) == lex_lt(a@.skip(i as int), b@.skip(i as int)),
        ensures
            lex_lt(a@, b@) == (if i >= lb {
                false
            } else if i >= la {
                true
            } else {
                (a@[i as int] as int) < (b@[i as int] as int)
            }),
        decreases la - i,
    {
        if i >= lb {
            break ;
        }
        if i >= la {
            break ;
        }
        let ca = a.get_char(i);
        let cb = b.get_char(i);
        if ca != cb {
            break ;
        }
        proof {
            assert(a@.skip(i as int).drop_first() =~= a@.skip(i + 1));
            assert(b@.skip(i as int).drop_first() =~= b@.skip(i + 1));
        }
        i = i + 1;
    }
    if i >= lb {
        false
    } else if i >= la {
        true
    } else {
        let ca = a.get_char(i);
        let cb = b.get_char(i);
        (ca as u32) < (cb as u32)
    }
}

/// Whether `a` and `b` are the same text.
pub fn str_eq(a: &str, b: &str) -> (r: bool)
    ensures
        r == (a@ == b@),
{
    let la = a.unicode_len();
    let lb = b.unicode_len();
    if la != lb {
        return false;
    }
    let mut i: usize = 0;
    while i < la
        invariant
            la == a@.len(),
            la == b@.len(),
            i <= la,
            forall|k: int| 0 <= k < i ==> a@[k] == b@[k],
        decreases la - i,
    {
        if a.get_char(i) != b.get_char(i) {
            return false;
        }
        i = i + 1;
    }
    proof {
        assert(a@ =~= b@);
    }
    true
}

} // verus!
