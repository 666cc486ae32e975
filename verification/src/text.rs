//! Text as sequences of characters: the std character classes and case maps
//! the library leans on, and verified word splitting, joining and trimming.

use vstd::prelude::*;

verus! {

broadcast use vstd::string::group_string_axioms;

// ---------------------------------------------------------------------------
// What std computes for characters and strings
// ---------------------------------------------------------------------------

/// The Unicode `Alphabetic` or `Numeric` property of a character.
pub uninterp spec fn alphanumeric(c: char) -> bool;

/// The Unicode `White_Space` property of a character.
pub uninterp spec fn whitespace(c: char) -> bool;

/// The Unicode `Uppercase` property of a character.
pub uninterp spec fn uppercase_char(c: char) -> bool;

/// The full Unicode lowercase mapping of a string.
pub uninterp spec fn lowercase_of(s: Seq<char>) -> Seq<char>;

/// The full Unicode uppercase mapping of one character.
pub uninterp spec fn uppercase_of(c: char) -> Seq<char>;

/// A character in the ASCII range.
pub open spec fn is_ascii_char(c: char) -> bool {
    (c as u32) < 128
}

/// An ASCII letter or digit.
pub open spec fn ascii_alphanumeric(c: char) -> bool {
    ('a' <= c <= 'z') || ('A' <= c <= 'Z') || ('0' <= c <= '9')
}

/// An ASCII White_Space character: space, tab, line feed, vertical tab,
/// form feed or carriage return.
pub open spec fn ascii_whitespace(c: char) -> bool {
    c == ' ' || ('\t' <= c <= '\r')
}

/// `c` with the ASCII letters a-z mapped to A-Z.
pub open spec fn ascii_upper(c: char) -> char {
    if 'a' <= c <= 'z' {
        (((c as u32) - 32) as u8) as char
    } else {
        c
    }
}

/// The character of the decimal digit `d` (0 to 9).
pub open spec fn digit_char(d: nat) -> char {
    ((48 + d) as u8) as char
}

/// The decimal digits of `n`, most significant first, with no leading zero.
pub open spec fn digits(n: nat) -> Seq<char>
    decreases n,
{
    if n < 10 {
        seq![digit_char(n)]
    } else {
        digits(n / 10).push(digit_char(n % 10))
    }
}

/// The decimal text of an integer, with a leading `-` when negative.
pub open spec fn decimal(n: i64) -> Seq<char> {
    if n < 0 {
        seq!['-'] + digits((-n) as nat)
    } else {
        digits(n as nat)
    }
}

/// `s` with every non-overlapping occurrence of `from`, taken left to right,
/// replaced by `to`. An empty `from` matches before every character and at
/// the end.
pub open spec fn replaced(s: Seq<char>, from: Seq<char>, to: Seq<char>) -> Seq<char>
    decreases s.len(),
{
    if from.len() == 0 {
        if s.len() == 0 {
            to
        } else {
            to + seq![s[0]] + replaced(s.subrange(1, s.len() as int), from, to)
        }
    } else if s.len() < from.len() {
        s
    } else if s.subrange(0, from.len() as int) == from {
        to + replaced(s.subrange(from.len() as int, s.len() as int), from, to)
    } else {
        seq![s[0]] + replaced(s.subrange(1, s.len() as int), from, to)
    }
}

/// `char::is_alphanumeric`: whether the character is alphabetic or numeric.
#[verifier::external_body]
pub(crate) fn is_alphanumeric(c: char) -> (r: bool)
    ensures
        r == alphanumeric(c),
        is_ascii_char(c) ==> (r <==> ascii_alphanumeric(c)),
{
    c.is_alphanumeric()
}

/// `char::is_whitespace`: whether the character has the White_Space property.
#[verifier::external_body]
pub(crate) fn is_whitespace(c: char) -> (r: bool)
    ensures
        r == whitespace(c),
        is_ascii_char(c) ==> (r <==> ascii_whitespace(c)),
{
    c.is_whitespace()
}

/// `char::is_uppercase`: whether the character has the Uppercase property.
#[verifier::external_body]
pub(crate) fn is_uppercase(c: char) -> (r: bool)
    ensures
        r == uppercase_char(c),
        is_ascii_char(c) ==> (r <==> 'A' <= c <= 'Z'),
{
    c.is_uppercase()
}

/// `str::to_lowercase`: the lowercase equivalent of a string, as a new String.
#[verifier::external_body]
pub(crate) fn to_lowercase(s: &str) -> (r: String)
    ensures
        r@ == lowercase_of(s@),
        (forall|i: int| 0 <= i < s@.len() ==> is_ascii_char(#[trigger] s@[i]))
            ==> r@ == s@.map_values(|c: char| ascii_lower(c)),
{
    s.to_lowercase()
}

/// `char::to_uppercase`, its characters gathered into a String.
#[verifier::external_body]
pub(crate) fn char_to_uppercase(c: char) -> (r: String)
    ensures
        r@ == uppercase_of(c),
        is_ascii_char(c) ==> r@ == seq![ascii_upper(c)],
{
    c.to_uppercase().collect::<String>()
}

/// Every character of `s` is a decimal digit, and there is at least one.
pub open spec fn all_digits(s: Seq<char>) -> bool {
    s.len() > 0 && forall|i: int| 0 <= i < s.len() ==> '0' <= #[trigger] s[i] <= '9'
}

/// The value of a run of decimal digits.
pub open spec fn digits_value(s: Seq<char>) -> int
    decreases s.len(),
{
    if s.len() == 0 {
        0
    } else {
        digits_value(s.drop_last()) * 10 + ((s.last() as u32) - 48)
    }
}

/// The value a text denotes as an optional `+` or `-` followed by decimal
/// digits, or `None` when it has another form.
pub open spec fn signed_value(s: Seq<char>) -> Option<int> {
    if s.len() > 0 && (s[0] == '-' || s[0] == '+') {
        let rest = s.subrange(1, s.len() as int);
        if !all_digits(rest) {
            None
        } else if s[0] == '-' {
            Some(-digits_value(rest))
        } else {
            Some(digits_value(rest))
        }
    } else if all_digits(s) {
        Some(digits_value(s))
    } else {
        None
    }
}

/// The integer a text reads as under `str::parse::<i64>`: an optional sign
/// and decimal digits, within range; otherwise `None`.
pub open spec fn parsed_int(s: Seq<char>) -> Option<i64> {
    match signed_value(s) {
        Some(v) => if i64::MIN <= v <= i64::MAX {
            Some(v as i64)
        } else {
            None
        },
        None => None,
    }
}

/// `str::parse::<i64>`: the integer a text reads as.
#[verifier::external_body]
pub(crate) fn parse_int(s: &str) -> (r: Option<i64>)
    ensures
        r == parsed_int(s@),
{
    s.parse::<i64>().ok()
}

/// `i64::to_string`: the decimal text of an integer.
#[verifier::external_body]
pub(crate) fn int_text(n: i64) -> (r: String)
    ensures
        r@ == decimal(n),
{
    n.to_string()
}

/// `str::replace`: every occurrence of `from` replaced by `to`.
#[verifier::external_body]
pub(crate) fn replace(s: &str, from: &str, to: &str) -> (r: String)
    ensures
        r@ == replaced(s@, from@, to@),
{
    s.replace(from, to)
}

/// `String::push`: appends one character.
#[verifier::external_body]
pub(crate) fn push_char(s: &mut String, c: char)
    ensures
        final(s)@ == old(s)@.push(c),
{
    s.push(c)
}

/// `String::push_str`: appends a string slice.
#[verifier::external_body]
pub(crate) fn push_str(s: &mut String, t: &str)
    ensures
        final(s)@ == old(s)@ + t@,
{
    s.push_str(t)
}

// ---------------------------------------------------------------------------
// Conversions
// ---------------------------------------------------------------------------

/// The characters of `s`, in order.
pub fn chars_of(s: &str) -> (r: Vec<char>)
    ensures
        r@ == s@,
{
    let mut out: Vec<char> = Vec::new();
    for c in it: s.chars()
        invariant
            out@ == it.seq().take(it.index() as int),
    {
        out.push(c);
    }
    out
}

/// A String holding exactly the characters `v`.
pub fn string_of(v: &Vec<char>) -> (r: String)
    ensures
        r@ == v@,
{
    let mut s = String::new();
    let mut i: usize = 0;
    while i < v.len()
        invariant
            i <= v.len(),
            s@ == v@.take(i as int),
        decreases v.len() - i,
    {
        push_char(&mut s, v[i]);
        i = i + 1;
        assert(v@.take(i as int) == v@.take(i - 1).push(v@[i - 1]));
    }
    assert(v@.take(v.len() as int) == v@);
    s
}

/// A copy of `s` as a String.
pub fn owned(s: &str) -> (r: String)
    ensures
        r@ == s@,
{
    let mut t = String::new();
    push_str(&mut t, s);
    assert(Seq::<char>::empty() + s@ == s@);
    t
}

/// `a` followed by `b`.
pub fn concat(a: &str, b: &str) -> (r: String)
    ensures
        r@ == a@ + b@,
{
    let mut t = owned(a);
    push_str(&mut t, b);
    t
}

/// Whether two character sequences are equal.
pub fn same_chars(a: &Vec<char>, b: &Vec<char>) -> (r: bool)
    ensures
        r == (a@ == b@),
{
    if a.len() != b.len() {
        return false;
    }
    let mut i: usize = 0;
    while i < a.len()
        invariant
            i <= a.len(),
            a.len() == b.len(),
            forall|j: int| 0 <= j < i ==> a@[j] == b@[j],
        decreases a.len() - i,
    {
        if a[i] != b[i] {
            return false;
        }
        i = i + 1;
    }
    assert(a@ =~= b@);
    true
}

// ---------------------------------------------------------------------------
// Words
// ---------------------------------------------------------------------------

/// The views of a vector of character vectors.
pub open spec fn seqs(v: Seq<Vec<char>>) -> Seq<Seq<char>> {
    v.map_values(|x: Vec<char>| x@)
}

/// The maximal runs of non-whitespace characters of `s`, in order: what
/// `str::split_whitespace` yields.
pub open spec fn words(s: Seq<char>) -> Seq<Seq<char>>
    decreases s.len(),
{
    if s.len() == 0 {
        seq![]
    } else {
        let w = words(s.drop_last());
        let c = s.last();
        if whitespace(c) {
            w
        } else if s.len() >= 2 && !whitespace(s[s.len() - 2]) {
            w.update(w.len() - 1, w.last().push(c))
        } else {
            w.push(seq![c])
        }
    }
}

/// A text that ends in a non-whitespace character has at least one word.
pub proof fn lemma_words_nonempty(s: Seq<char>)
    requires
        s.len() > 0,
        !whitespace(s.last()),
    ensures
        words(s).len() > 0,
    decreases s.len(),
{
    if s.len() >= 2 && !whitespace(s[s.len() - 2]) {
        let p = s.drop_last();
        assert(p.last() == s[s.len() - 2]);
        lemma_words_nonempty(p);
    }
}

/// The words of `s`: `str::split_whitespace` collected.
pub fn split_words(s: &Vec<char>) -> (r: Vec<Vec<char>>)
    ensures
        seqs(r@) == words(s@),
{
    let mut out: Vec<Vec<char>> = Vec::new();
    let mut i: usize = 0;
    while i < s.len()
        invariant
            i <= s.len(),
            seqs(out@) == words(s@.take(i as int)),
        decreases s.len() - i,
    {
        let c = s[i];
        let ghost pre = s@.take(i as int);
        let ghost cur = s@.take(i + 1);
        assert(cur.drop_last() == pre);
        assert(cur.last() == c);
        if is_whitespace(c) {
        } else if i >= 1 && !is_whitespace(s[i - 1]) {
            proof {
                assert(pre.last() == s@[i - 1]);
                lemma_words_nonempty(pre);
                assert(cur[cur.len() - 2] == s@[i - 1]);
            }
            let mut last = out.pop().unwrap();
            last.push(c);
            out.push(last);
            assert(seqs(out@) =~= words(pre).update(words(pre).len() - 1, words(pre).last().push(c)));
        } else {
            proof {
                if i >= 1 {
                    assert(cur[cur.len() - 2] == s@[i - 1]);
                }
            }
            let mut w: Vec<char> = Vec::new();
            w.push(c);
            out.push(w);
            assert(seqs(out@) =~= words(pre).push(seq![c]));
        }
        i = i + 1;
    }
    assert(s@.take(s.len() as int) == s@);
    out
}

/// The pieces of `ws` with `sep` between each neighbouring pair.
pub open spec fn join(ws: Seq<Seq<char>>, sep: Seq<char>) -> Seq<char>
    decreases ws.len(),
{
    if ws.len() == 0 {
        seq![]
    } else if ws.len() == 1 {
        ws[0]
    } else {
        join(ws.drop_last(), sep) + sep + ws.last()
    }
}

/// `ws` joined with `sep` between neighbours: `[..].join(sep)`.
pub fn join_chars(ws: &Vec<Vec<char>>, sep: &Vec<char>) -> (r: Vec<char>)
    ensures
        r@ == join(seqs(ws@), sep@),
{
    let mut out: Vec<char> = Vec::new();
    let mut i: usize = 0;
    while i < ws.len()
        invariant
            i <= ws.len(),
            out@ == join(seqs(ws@).take(i as int), sep@),
        decreases ws.len() - i,
    {
        let ghost pre = seqs(ws@).take(i as int);
        let ghost cur = seqs(ws@).take(i + 1);
        assert(cur.drop_last() =~= pre);
        assert(cur.last() == ws@[i as int]@);
        if i > 0 {
            append_all(&mut out, sep);
        }
        append_all(&mut out, &ws[i]);
        proof {
            if i == 0 {
                assert(out@ =~= cur[0]);
            }
        }
        i = i + 1;
    }
    assert(seqs(ws@).take(ws.len() as int) =~= seqs(ws@));
    out
}

/// Appends every character of `b` to `a`.
pub fn append_all(a: &mut Vec<char>, b: &Vec<char>)
    ensures
        final(a)@ == old(a)@ + b@,
{
    let mut i: usize = 0;
    while i < b.len()
        invariant
            i <= b.len(),
            a@ == old(a)@ + b@.take(i as int),
        decreases b.len() - i,
    {
        a.push(b[i]);
        i = i + 1;
        assert(old(a)@ + b@.take(i as int) =~= old(a)@ + b@.take(i - 1) + seq![b@[i - 1]]);
    }
    assert(b@.take(b.len() as int) == b@);
}

/// The number of leading whitespace characters of `s`.
pub open spec fn leading_ws(s: Seq<char>) -> nat
    decreases s.len(),
{
    if s.len() > 0 && whitespace(s[0]) {
        1 + leading_ws(s.drop_first())
    } else {
        0
    }
}

/// The number of trailing whitespace characters of `s`.
pub open spec fn trailing_ws(s: Seq<char>) -> nat
    decreases s.len(),
{
    if s.len() > 0 && whitespace(s.last()) {
        1 + trailing_ws(s.drop_last())
    } else {
        0
    }
}

/// `s` without leading and trailing whitespace: what `str::trim` gives.
pub open spec fn trimmed(s: Seq<char>) -> Seq<char> {
    let a = leading_ws(s) as int;
    let t = s.skip(a);
    t.take(t.len() - trailing_ws(t))
}


proof fn lemma_leading_ws(s: Seq<char>, a: int)
    requires
        0 <= a <= s.len(),
        forall|j: int| 0 <= j < a ==> whitespace(#[trigger] s[j]),
        a == s.len() || !whitespace(s[a]),
    ensures
        leading_ws(s) == a,
    decreases a,
{
    if a > 0 {
        let t = s.drop_first();
        assert forall|j: int| 0 <= j < a - 1 implies whitespace(#[trigger] t[j]) by {
            assert(t[j] == s[j + 1]);
        }
        if a - 1 < t.len() {
            assert(t[a - 1] == s[a]);
        }
        assert(whitespace(s[0]));
        lemma_leading_ws(t, a - 1);
    }
}

proof fn lemma_trailing_ws(s: Seq<char>, b: int)
    requires
        0 <= b <= s.len(),
        forall|j: int| s.len() - b <= j < s.len() ==> whitespace(#[trigger] s[j]),
        b == s.len() || !whitespace(s[s.len() - b - 1]),
    ensures
        trailing_ws(s) == b,
    decreases b,
{
    if b > 0 {
        let t = s.drop_last();
        assert forall|j: int| t.len() - (b - 1) <= j < t.len() implies whitespace(#[trigger] t[j]) by {
            assert(t[j] == s[j]);
        }
        if b - 1 < t.len() {
            assert(t[t.len() - (b - 1) - 1] == s[s.len() - b - 1]);
        }
        assert(whitespace(s[s.len() - 1]));
        lemma_trailing_ws(t, b - 1);
    }
}

/// `s` without leading and trailing whitespace: `str::trim`.
pub fn trim_chars(s: &Vec<char>) -> (r: Vec<char>)
    ensures
        r@ == trimmed(s@),
{
    let mut a: usize = 0;
    while a < s.len() && is_whitespace(s[a])
        invariant
            a <= s.len(),
            forall|j: int| 0 <= j < a ==> whitespace(#[trigger] s@[j]),
        decreases s.len() - a,
    {
        a = a + 1;
    }
    proof {
        lemma_leading_ws(s@, a as int);
    }
    let ghost t = s@.skip(a as int);
    let mut b: usize = 0;
    while b < s.len() - a && is_whitespace(s[s.len() - 1 - b])
        invariant
            a <= s.len(),
            b <= s.len() - a,
            t == s@.skip(a as int),
            forall|j: int| t.len() - b <= j < t.len() ==> whitespace(#[trigger] t[j]),
        decreases s.len() - a - b,
    {
        assert(t[t.len() - b - 1] == s@[s.len() - 1 - b]);
        b = b + 1;
    }
    proof {
        if b < s.len() - a {
            assert(t[t.len() - b - 1] == s@[s.len() - 1 - b]);
        }
        lemma_trailing_ws(t, b as int);
    }
    let mut out: Vec<char> = Vec::new();
    let end = s.len() - b;
    let mut i = a;
    while i < end
        invariant
            a <= i <= end,
            end == s.len() - b,
            a <= end,
            out@ =~= s@.subrange(a as int, i as int),
        decreases end - i,
    {
        out.push(s[i]);
        i = i + 1;
    }
    assert(out@ =~= t.take(t.len() - b));
    out
}


/// Whether two strings hold the same characters.
pub fn text_eq(a: &str, b: &str) -> (r: bool)
    ensures
        r == (a@ == b@),
{
    same_chars(&chars_of(a), &chars_of(b))
}

/// The texts of a list of strings.
pub open spec fn names(v: Seq<String>) -> Seq<Seq<char>> {
    v.map_values(|k: String| k@)
}

/// The text of an optional string.
pub open spec fn opt_text(r: Option<String>) -> Option<Seq<char>> {
    match r {
        Some(s) => Some(s@),
        None => None,
    }
}

/// The pieces of `list` with `sep` between each neighbouring pair:
/// `list.join(sep)`.
pub fn join_strings(list: &[String], sep: &str) -> (r: String)
    ensures
        r@ == join(names(list@), sep@),
{
    let mut pieces: Vec<Vec<char>> = Vec::new();
    let mut i: usize = 0;
    while i < list.len()
        invariant
            i <= list.len(),
            seqs(pieces@) =~= names(list@).take(i as int),
        decreases list.len() - i,
    {
        let p = chars_of(list[i].as_str());
        let ghost prev = pieces@;
        pieces.push(p);
        assert(seqs(pieces@) =~= seqs(prev).push(list@[i as int]@));
        i = i + 1;
    }
    assert(names(list@).take(list.len() as int) =~= names(list@));
    string_of(&join_chars(&pieces, &chars_of(sep)))
}

/// A character with the ASCII letters A-Z mapped to a-z.
pub open spec fn ascii_lower(c: char) -> char {
    if 'A' <= c <= 'Z' {
        (((c as u32) + 32) as u8) as char
    } else {
        c
    }
}

/// `s` with the ASCII letters A-Z mapped to a-z: `to_ascii_lowercase`.
pub fn lower_ascii(s: &Vec<char>) -> (r: Vec<char>)
    ensures
        r@ == s@.map_values(|c: char| ascii_lower(c)),
{
    let mut lower: Vec<char> = Vec::new();
    let mut i: usize = 0;
    while i < s.len()
        invariant
            i <= s.len(),
            lower@ =~= s@.take(i as int).map_values(|c: char| ascii_lower(c)),
        decreases s.len() - i,
    {
        let c = s[i];
        let l = if 'A' <= c && c <= 'Z' {
            ((c as u32) + 32) as u8 as char
        } else {
            c
        };
        lower.push(l);
        i = i + 1;
    }
    assert(s@.take(s.len() as int) =~= s@);
    lower
}

/// Whether `s` holds nothing but whitespace: `s.trim().is_empty()`.
pub fn is_blank(s: &str) -> (r: bool)
    ensures
        r == (trimmed(s@).len() == 0),
{
    trim_chars(&chars_of(s)).len() == 0
}

// ---------------------------------------------------------------------------
// Filling `{NAME}` placeholders
// ---------------------------------------------------------------------------

/// `s` holds no `{`.
pub open spec fn brace_free(s: Seq<char>) -> bool {
    forall|i: int| 0 <= i < s.len() ==> #[trigger] s[i] != '{'
}

/// `s` is a placeholder such as `{NAME}`: a `{`, then no brace, then a `}`.
pub open spec fn is_placeholder(s: Seq<char>) -> bool {
    &&& s.len() >= 2
    &&& s[0] == '{'
    &&& s[s.len() - 1] == '}'
    &&& forall|i: int| 0 < i < s.len() ==> #[trigger] s[i] != '{'
    &&& forall|i: int| 0 <= i < s.len() - 1 ==> #[trigger] s[i] != '}'
}

/// The pieces of `ps` laid end to end.
pub open spec fn flat(ps: Seq<Seq<char>>) -> Seq<char>
    decreases ps.len(),
{
    if ps.len() == 0 {
        seq![]
    } else {
        ps[0] + flat(ps.drop_first())
    }
}

/// Laying out two lists of pieces one after the other.
pub proof fn lemma_flat_append(a: Seq<Seq<char>>, b: Seq<Seq<char>>)
    ensures
        flat(a + b) == flat(a) + flat(b),
    decreases a.len(),
{
    if a.len() == 0 {
        assert(a + b =~= b);
        assert(flat(a) + flat(b) =~= flat(b));
    } else {
        lemma_flat_append(a.drop_first(), b);
        assert((a + b).drop_first() =~= a.drop_first() + b);
        assert(flat(a) + flat(b) =~= a[0] + (flat(a.drop_first()) + flat(b)));
    }
}

/// Piece `p` after the placeholder `f` is filled with `t`.
pub open spec fn filled(p: Seq<char>, f: Seq<char>, t: Seq<char>) -> Seq<char> {
    if p == f {
        t
    } else {
        p
    }
}

/// Text with no `{` passes through a placeholder replacement unchanged, and
/// the replacement goes on after it.
pub proof fn lemma_replaced_skips_brace_free(x: Seq<char>, y: Seq<char>, f: Seq<char>, t: Seq<char>)
    requires
        brace_free(x),
        f.len() > 0,
        f[0] == '{',
    ensures
        replaced(x + y, f, t) == x + replaced(y, f, t),
    decreases x.len(),
{
    let s = x + y;
    if x.len() == 0 {
        assert(s =~= y);
    } else if s.len() < f.len() {
        assert(x + y =~= s);
    } else {
        assert(s.subrange(0, f.len() as int)[0] != f[0]);
        let rest = x.subrange(1, x.len() as int);
        assert(s.subrange(1, s.len() as int) =~= rest + y);
        lemma_replaced_skips_brace_free(rest, y, f, t);
        assert(seq![s[0]] + (rest + replaced(y, f, t)) =~= x + replaced(y, f, t));
    }
}

/// A placeholder at the front is filled, and the replacement goes on after it.
pub proof fn lemma_replaced_fills_front(f: Seq<char>, y: Seq<char>, t: Seq<char>)
    requires
        f.len() > 0,
    ensures
        replaced(f + y, f, t) == t + replaced(y, f, t),
{
    let s = f + y;
    assert(s.subrange(0, f.len() as int) =~= f);
    assert(s.subrange(f.len() as int, s.len() as int) =~= y);
}

/// Another placeholder at the front is kept as it is.
pub proof fn lemma_replaced_skips_other(g: Seq<char>, f: Seq<char>, y: Seq<char>, t: Seq<char>)
    requires
        is_placeholder(g),
        is_placeholder(f),
        g != f,
    ensures
        replaced(g + y, f, t) == g + replaced(y, f, t),
{
    let s = g + y;
    if s.len() < f.len() {
        assert(y.len() < f.len());
        assert(g + y =~= s);
    } else {
        if s.subrange(0, f.len() as int) == f {
            if f.len() <= g.len() {
                assert(s.subrange(0, f.len() as int)[f.len() - 1] == g[f.len() - 1]);
                assert(g[f.len() - 1] == '}');
                assert(f.len() == g.len());
                assert(g =~= f);
            } else {
                assert(s.subrange(0, f.len() as int)[g.len() - 1] == g[g.len() - 1]);
                assert(f[g.len() - 1] == '}');
            }
        }
        let rest = g.subrange(1, g.len() as int);
        assert(brace_free(rest));
        assert(s.subrange(1, s.len() as int) =~= rest + y);
        lemma_replaced_skips_brace_free(rest, y, f, t);
        assert(seq![s[0]] + (rest + replaced(y, f, t)) =~= g + replaced(y, f, t));
    }
}

/// Text made of pieces - brace-free text or placeholders - has the
/// placeholder `f` filled piece by piece, and the replacement goes on into
/// what follows.
pub proof fn lemma_replaced_pieces(ps: Seq<Seq<char>>, r: Seq<char>, f: Seq<char>, t: Seq<char>)
    requires
        is_placeholder(f),
        forall|i: int| 0 <= i < ps.len() ==> brace_free(#[trigger] ps[i]) || is_placeholder(ps[i]),
    ensures
        replaced(flat(ps) + r, f, t) == flat(ps.map_values(|p: Seq<char>| filled(p, f, t))) + replaced(r, f, t),
    decreases ps.len(),
{
    let img = ps.map_values(|p: Seq<char>| filled(p, f, t));
    if ps.len() == 0 {
        assert(flat(ps) + r =~= r);
        assert(flat(img) + replaced(r, f, t) =~= replaced(r, f, t));
    } else {
        let rest = ps.drop_first();
        assert forall|i: int| 0 <= i < rest.len() implies brace_free(#[trigger] rest[i]) || is_placeholder(rest[i]) by {
            assert(rest[i] == ps[i + 1]);
        }
        lemma_replaced_pieces(rest, r, f, t);
        assert(flat(ps) + r =~= ps[0] + (flat(rest) + r));
        assert(img.drop_first() =~= rest.map_values(|p: Seq<char>| filled(p, f, t)));
        assert(brace_free(ps[0]) || is_placeholder(ps[0]));
        if ps[0] == f {
            lemma_replaced_fills_front(f, flat(rest) + r, t);
        } else if brace_free(ps[0]) {
            lemma_replaced_skips_brace_free(ps[0], flat(rest) + r, f, t);
        } else {
            lemma_replaced_skips_other(ps[0], f, flat(rest) + r, t);
        }
        assert(flat(img) == img[0] + flat(img.drop_first()));
        assert(img[0] + (flat(img.drop_first()) + replaced(r, f, t)) =~= flat(img) + replaced(r, f, t));
    }
}

proof fn lemma_digits_brace_free(n: nat)
    ensures
        brace_free(digits(n)),
    decreases n,
{
    if n >= 10 {
        lemma_digits_brace_free(n / 10);
        assert(digit_char(n % 10) != '{');
    } else {
        assert(digit_char(n) != '{');
    }
}

/// The decimal text of an integer holds no `{`.
pub proof fn lemma_decimal_brace_free(n: i64)
    ensures
        brace_free(decimal(n)),
{
    if n < 0 {
        lemma_digits_brace_free((-n) as nat);
        assert forall|i: int| 0 <= i < decimal(n).len() implies #[trigger] decimal(n)[i] != '{' by {
            if i > 0 {
                assert(decimal(n)[i] == digits((-n) as nat)[i - 1]);
            }
        }
    } else {
        lemma_digits_brace_free(n as nat);
    }
}

/// Two texts with no `{` make one with none.
pub proof fn lemma_concat_brace_free(x: Seq<char>, y: Seq<char>)
    requires
        brace_free(x),
        brace_free(y),
    ensures
        brace_free(x + y),
{
    assert forall|i: int| 0 <= i < (x + y).len() implies #[trigger] (x + y)[i] != '{' by {
        if i >= x.len() {
            assert((x + y)[i] == y[i - x.len()]);
        }
    }
}

/// Texts with no `{`, joined by a separator with none, make one with none.
pub proof fn lemma_join_brace_free(ws: Seq<Seq<char>>, sep: Seq<char>)
    requires
        brace_free(sep),
        forall|i: int| 0 <= i < ws.len() ==> brace_free(#[trigger] ws[i]),
    ensures
        brace_free(join(ws, sep)),
    decreases ws.len(),
{
    if ws.len() == 1 {
        assert(brace_free(ws[0]));
    } else if ws.len() > 1 {
        let prev = ws.drop_last();
        assert forall|i: int| 0 <= i < prev.len() implies brace_free(#[trigger] prev[i]) by {
            assert(prev[i] == ws[i]);
        }
        lemma_join_brace_free(prev, sep);
        assert(brace_free(ws[ws.len() - 1]));
        lemma_concat_brace_free(join(prev, sep), sep);
        lemma_concat_brace_free(join(prev, sep) + sep, ws.last());
    }
}

proof fn lemma_ws_counts_bounded(s: Seq<char>)
    ensures
        leading_ws(s) <= s.len(),
        trailing_ws(s) <= s.len(),
    decreases s.len(),
{
    if s.len() > 0 {
        lemma_ws_counts_bounded(s.drop_first());
        lemma_ws_counts_bounded(s.drop_last());
    }
}

/// Trimming a text with no `{` leaves one with none.
pub proof fn lemma_trimmed_brace_free(s: Seq<char>)
    requires
        brace_free(s),
    ensures
        brace_free(trimmed(s)),
{
    let a = leading_ws(s) as int;
    lemma_ws_counts_bounded(s);
    let t = s.skip(a);
    lemma_ws_counts_bounded(t);
    assert forall|i: int| 0 <= i < t.len() implies #[trigger] t[i] != '{' by {
        assert(t[i] == s[i + a]);
    }
    let r = t.take(t.len() - trailing_ws(t));
    assert forall|i: int| 0 <= i < r.len() implies #[trigger] r[i] != '{' by {
        assert(r[i] == t[i]);
    }
}

} // verus!
