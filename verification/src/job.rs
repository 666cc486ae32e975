//! Turning a job posting into a study track: matching the skills a posting
//! asks for onto subjects this app can teach. Pure string work.

use vstd::prelude::*;
use crate::text::{
    alphanumeric, chars_of, join, join_chars, lowercase_of, same_chars, seqs, split_words,
    string_of, to_lowercase, words, is_alphanumeric, owned, trimmed, trim_chars, uppercase_char,
    uppercase_of, is_uppercase, char_to_uppercase, push_char, names, opt_text,
};

verus! {

broadcast use vstd::string::group_string_axioms;

// ---------------------------------------------------------------------------
// Short forms
// ---------------------------------------------------------------------------

/// How many short forms the alias table holds.
pub const ALIAS_COUNT: usize = 43;

/// Short forms and product names a posting uses that are not the catalogue's
/// own spelling, paired with the catalogue subject they stand for. The short
/// form is already normalised.
pub open spec fn alias(i: int) -> (Seq<char>, Seq<char>) {
    if i == 0 {
        ("k8s"@, "Kubernetes"@)
    } else if i == 1 {
        ("kubernetes"@, "Kubernetes"@)
    } else if i == 2 {
        ("reactjs"@, "React"@)
    } else if i == 3 {
        ("react js"@, "React"@)
    } else if i == 4 {
        ("nodejs"@, "Node.js"@)
    } else if i == 5 {
        ("node"@, "Node.js"@)
    } else if i == 6 {
        ("postgres"@, "PostgreSQL"@)
    } else if i == 7 {
        ("psql"@, "PostgreSQL"@)
    } else if i == 8 {
        ("mongo"@, "MongoDB"@)
    } else if i == 9 {
        ("spring"@, "Spring Boot"@)
    } else if i == 10 {
        ("springboot"@, "Spring Boot"@)
    } else if i == 11 {
        ("spring mvc"@, "Spring Boot"@)
    } else if i == 12 {
        ("jpa"@, "Hibernate / JPA"@)
    } else if i == 13 {
        ("hibernate"@, "Hibernate / JPA"@)
    } else if i == 14 {
        ("orm"@, "Hibernate / JPA"@)
    } else if i == 15 {
        ("ci cd"@, "CI/CD (GitHub Actions)"@)
    } else if i == 16 {
        ("cicd"@, "CI/CD (GitHub Actions)"@)
    } else if i == 17 {
        ("github actions"@, "CI/CD (GitHub Actions)"@)
    } else if i == 18 {
        ("gitlab ci"@, "CI/CD (GitHub Actions)"@)
    } else if i == 19 {
        ("jenkins"@, "CI/CD (GitHub Actions)"@)
    } else if i == 20 {
        ("dsa"@, "Data Structures & Algorithms"@)
    } else if i == 21 {
        ("data structures"@, "Data Structures & Algorithms"@)
    } else if i == 22 {
        ("algorithms"@, "Data Structures & Algorithms"@)
    } else if i == 23 {
        ("problem solving"@, "Data Structures & Algorithms"@)
    } else if i == 24 {
        ("html"@, "HTML & CSS"@)
    } else if i == 25 {
        ("css"@, "HTML & CSS"@)
    } else if i == 26 {
        ("scss"@, "HTML & CSS"@)
    } else if i == 27 {
        ("ts"@, "TypeScript"@)
    } else if i == 28 {
        ("js"@, "JavaScript"@)
    } else if i == 29 {
        ("es6"@, "JavaScript"@)
    } else if i == 30 {
        ("tailwind"@, "Tailwind CSS"@)
    } else if i == 31 {
        ("dotnet"@, ".NET / C#"@)
    } else if i == 32 {
        ("net"@, ".NET / C#"@)
    } else if i == 33 {
        ("c#"@, ".NET / C#"@)
    } else if i == 34 {
        ("csharp"@, ".NET / C#"@)
    } else if i == 35 {
        ("amazon web services"@, "AWS"@)
    } else if i == 36 {
        ("google cloud"@, "GCP"@)
    } else if i == 37 {
        ("google cloud platform"@, "GCP"@)
    } else if i == 38 {
        ("microsoft azure"@, "Azure"@)
    } else if i == 39 {
        ("rest"@, "Spring Boot"@)
    } else if i == 40 {
        ("microservices"@, "System Design"@)
    } else if i == 41 {
        ("system design"@, "System Design"@)
    } else if i == 42 {
        ("distributed systems"@, "System Design"@)
    } else {
        (seq![], seq![])
    }
}

/// Entry `i` of the alias table.
pub fn alias_pair(i: usize) -> (r: (&'static str, &'static str))
    requires
        i < ALIAS_COUNT,
    ensures
        r.0@ == alias(i as int).0,
        r.1@ == alias(i as int).1,
{
    match i {
        0 => ("k8s", "Kubernetes"),
        1 => ("kubernetes", "Kubernetes"),
        2 => ("reactjs", "React"),
        3 => ("react js", "React"),
        4 => ("nodejs", "Node.js"),
        5 => ("node", "Node.js"),
        6 => ("postgres", "PostgreSQL"),
        7 => ("psql", "PostgreSQL"),
        8 => ("mongo", "MongoDB"),
        9 => ("spring", "Spring Boot"),
        10 => ("springboot", "Spring Boot"),
        11 => ("spring mvc", "Spring Boot"),
        12 => ("jpa", "Hibernate / JPA"),
        13 => ("hibernate", "Hibernate / JPA"),
        14 => ("orm", "Hibernate / JPA"),
        15 => ("ci cd", "CI/CD (GitHub Actions)"),
        16 => ("cicd", "CI/CD (GitHub Actions)"),
        17 => ("github actions", "CI/CD (GitHub Actions)"),
        18 => ("gitlab ci", "CI/CD (GitHub Actions)"),
        19 => ("jenkins", "CI/CD (GitHub Actions)"),
        20 => ("dsa", "Data Structures & Algorithms"),
        21 => ("data structures", "Data Structures & Algorithms"),
        22 => ("algorithms", "Data Structures & Algorithms"),
        23 => ("problem solving", "Data Structures & Algorithms"),
        24 => ("html", "HTML & CSS"),
        25 => ("css", "HTML & CSS"),
        26 => ("scss", "HTML & CSS"),
        27 => ("ts", "TypeScript"),
        28 => ("js", "JavaScript"),
        29 => ("es6", "JavaScript"),
        30 => ("tailwind", "Tailwind CSS"),
        31 => ("dotnet", ".NET / C#"),
        32 => ("net", ".NET / C#"),
        33 => ("c#", ".NET / C#"),
        34 => ("csharp", ".NET / C#"),
        35 => ("amazon web services", "AWS"),
        36 => ("google cloud", "GCP"),
        37 => ("google cloud platform", "GCP"),
        38 => ("microsoft azure", "Azure"),
        39 => ("rest", "Spring Boot"),
        40 => ("microservices", "System Design"),
        41 => ("system design", "System Design"),
        _ => ("distributed systems", "System Design"),
    }
}


// ---------------------------------------------------------------------------
// Normalising a name
// ---------------------------------------------------------------------------

/// Letters, digits, `+` and `#` survive; everything else becomes a space.
pub open spec fn cleaned_char(c: char) -> char {
    if alphanumeric(c) || c == '+' || c == '#' {
        c
    } else {
        ' '
    }
}

/// Whether every character of `w` is an ASCII digit.
pub open spec fn all_ascii_digits(w: Seq<char>) -> bool {
    forall|i: int| 0 <= i < w.len() ==> '0' <= #[trigger] w[i] <= '9'
}

/// A word survives normalising unless it is a bare number or a lone `x`
/// (the "x" of a version such as "3.x").
pub open spec fn kept_word(w: Seq<char>) -> bool {
    !all_ascii_digits(w) && w != seq!['x']
}

/// The words of `ws` that survive normalising, in order.
pub open spec fn kept_words(ws: Seq<Seq<char>>) -> Seq<Seq<char>>
    decreases ws.len(),
{
    if ws.len() == 0 {
        seq![]
    } else if kept_word(ws.last()) {
        kept_words(ws.drop_last()).push(ws.last())
    } else {
        kept_words(ws.drop_last())
    }
}

/// A name lowercased, with punctuation turned into spaces, bare version
/// numbers dropped and the remaining words joined by single spaces, so
/// "Spring Boot 3.x" and "spring-boot" both read "spring boot".
pub open spec fn normalised(name: Seq<char>) -> Seq<char> {
    join(kept_words(words(lowercase_of(name).map_values(|c: char| cleaned_char(c)))), seq![' '])
}

fn is_kept_word(w: &Vec<char>) -> (r: bool)
    ensures
        r == kept_word(w@),
{
    let mut digits = true;
    let mut i: usize = 0;
    while i < w.len()
        invariant
            i <= w.len(),
            digits == (forall|j: int| 0 <= j < i ==> '0' <= #[trigger] w@[j] <= '9'),
        decreases w.len() - i,
    {
        let c = w[i];
        if !('0' <= c && c <= '9') {
            digits = false;
        }
        i = i + 1;
    }
    let lone_x = w.len() == 1 && w[0] == 'x';
    proof {
        if lone_x {
            assert(w@ =~= seq!['x']);
        }
        if w@ == seq!['x'] {
            assert(w@[0] == 'x');
        }
    }
    !digits && !lone_x
}

/// The normalised characters of `name`.
fn normalise_chars(name: &str) -> (r: Vec<char>)
    ensures
        r@ == normalised(name@),
{
    let lower = to_lowercase(name);
    let lower = chars_of(lower.as_str());
    let mut cleaned: Vec<char> = Vec::new();
    let mut i: usize = 0;
    while i < lower.len()
        invariant
            i <= lower.len(),
            cleaned@ =~= lower@.take(i as int).map_values(|c: char| cleaned_char(c)),
        decreases lower.len() - i,
    {
        let c = lower[i];
        if is_alphanumeric(c) || c == '+' || c == '#' {
            cleaned.push(c);
        } else {
            cleaned.push(' ');
        }
        i = i + 1;
    }
    assert(lower@.take(lower.len() as int) == lower@);
    let all = split_words(&cleaned);
    let mut kept: Vec<Vec<char>> = Vec::new();
    let mut k: usize = 0;
    while k < all.len()
        invariant
            k <= all.len(),
            seqs(kept@) == kept_words(seqs(all@).take(k as int)),
        decreases all.len() - k,
    {
        let ghost pre = seqs(all@).take(k as int);
        let ghost cur = seqs(all@).take(k + 1);
        assert(cur.drop_last() =~= pre);
        assert(cur.last() == all@[k as int]@);
        if is_kept_word(&all[k]) {
            kept.push(all[k].clone());
            assert(seqs(kept@) =~= kept_words(pre).push(cur.last()));
        }
        k = k + 1;
    }
    assert(seqs(all@).take(all.len() as int) =~= seqs(all@));
    let mut sep: Vec<char> = Vec::new();
    sep.push(' ');
    assert(sep@ =~= seq![' ']);
    join_chars(&kept, &sep)
}

/// Lowercase, strip punctuation, and drop bare version numbers so
/// "Spring Boot 3.x" and "spring-boot" both land on "spring boot".
fn normalise(name: &str) -> (r: String)
    ensures
        r@ == normalised(name@),
{
    string_of(&normalise_chars(name))
}


// ---------------------------------------------------------------------------
// Whole-word containment
// ---------------------------------------------------------------------------

/// `needle` is a non-empty run of whole words that occurs, word for word,
/// somewhere in `hay`.
pub open spec fn word_run_in(hay: Seq<Seq<char>>, needle: Seq<Seq<char>>) -> bool {
    &&& needle.len() > 0
    &&& needle.len() <= hay.len()
    &&& exists|i: int| 0 <= i <= hay.len() - needle.len() && #[trigger] hay.subrange(i, i + needle.len()) == needle
}

/// Does `needle` appear in `hay` as a run of whole words? Word-wise rather
/// than substring, so "java" never occurs inside "javascript".
pub open spec fn contains_words(hay: Seq<char>, needle: Seq<char>) -> bool {
    word_run_in(words(hay), words(needle))
}

fn run_at(hay: &Vec<Vec<char>>, needle: &Vec<Vec<char>>, at: usize) -> (r: bool)
    requires
        at + needle.len() <= hay.len(),
    ensures
        r == (seqs(hay@).subrange(at as int, at + needle.len()) == seqs(needle@)),
{
    let mut j: usize = 0;
    while j < needle.len()
        invariant
            j <= needle.len(),
            at + needle.len() <= hay.len(),
            forall|k: int| 0 <= k < j ==> hay@[at + k]@ == #[trigger] needle@[k]@,
        decreases needle.len() - j,
    {
        if !same_chars(&hay[at + j], &needle[j]) {
            assert(seqs(hay@).subrange(at as int, at + needle.len())[j as int] == hay@[at + j]@);
            return false;
        }
        j = j + 1;
    }
    assert(seqs(hay@).subrange(at as int, at + needle.len()) =~= seqs(needle@));
    true
}

fn has_word_run(hay: &Vec<Vec<char>>, needle: &Vec<Vec<char>>) -> (r: bool)
    ensures
        r == word_run_in(seqs(hay@), seqs(needle@)),
{
    if needle.len() == 0 || needle.len() > hay.len() {
        return false;
    }
    assert(seqs(hay@).len() == hay.len() && seqs(needle@).len() == needle.len());
    let last = hay.len() - needle.len();
    let mut i: usize = 0;
    while i <= last
        invariant
            0 < needle.len() <= hay.len(),
            last == hay.len() - needle.len(),
            i <= last + 1,
            forall|k: int| 0 <= k < i ==> #[trigger] seqs(hay@).subrange(k, k + needle.len()) != seqs(needle@),
        decreases last + 1 - i,
    {
        if run_at(hay, needle, i) {
            assert(seqs(hay@).len() == hay.len() && seqs(needle@).len() == needle.len());
            assert(seqs(hay@).subrange(i as int, i + needle.len()) == seqs(needle@));
            return true;
        }
        i = i + 1;
    }
    false
}

/// Does `needle` appear in `hay` as a run of whole words? Word-wise rather
/// than substring, so "java" never matches inside "javascript".
fn has_words(hay: &str, needle: &str) -> (r: bool)
    ensures
        r == contains_words(hay@, needle@),
{
    let hay = split_words(&chars_of(hay));
    let needle = split_words(&chars_of(needle));
    has_word_run(&hay, &needle)
}


// ---------------------------------------------------------------------------
// Matching a skill onto the catalogue
// ---------------------------------------------------------------------------

/// `i` is the first index below `n` where `p` holds.
pub open spec fn first_of(n: int, p: spec_fn(int) -> bool, i: int) -> bool {
    &&& 0 <= i < n
    &&& p(i)
    &&& forall|j: int| 0 <= j < i ==> !#[trigger] p(j)
}

/// `i` is, among the indices below `n` where `p` holds, one of greatest
/// `size`, and the first of those: what a stable sort by descending size
/// puts in front.
pub open spec fn widest_of(n: int, p: spec_fn(int) -> bool, size: spec_fn(int) -> nat, i: int) -> bool {
    &&& 0 <= i < n
    &&& p(i)
    &&& forall|j: int| 0 <= j < n && #[trigger] p(j) ==> size(j) <= size(i)
    &&& forall|j: int| 0 <= j < i && #[trigger] p(j) ==> size(j) < size(i)
}

/// Catalogue entry `i` is spelled, once normalised, exactly as the skill.
pub open spec fn spelled_as(want: Seq<char>, known: Seq<Seq<char>>) -> spec_fn(int) -> bool {
    |i: int| normalised(known[i]) == want
}

/// Short form `a` is exactly the skill, and its subject is in the catalogue.
pub open spec fn short_form_of(want: Seq<char>, known: Seq<Seq<char>>) -> spec_fn(int) -> bool {
    |a: int| alias(a).0 == want && known.contains(alias(a).1)
}

/// Catalogue entry `i` is named, as whole words, inside the skill.
pub open spec fn named_inside(want: Seq<char>, known: Seq<Seq<char>>) -> spec_fn(int) -> bool {
    |i: int| normalised(known[i]).len() > 0 && contains_words(want, normalised(known[i]))
}

/// How many words catalogue entry `i` has once normalised.
pub open spec fn name_size(known: Seq<Seq<char>>) -> spec_fn(int) -> nat {
    |i: int| words(normalised(known[i])).len()
}

/// Short form `a` occurs, as whole words, inside the skill, and its subject is
/// in the catalogue.
pub open spec fn short_form_inside(want: Seq<char>, known: Seq<Seq<char>>) -> spec_fn(int) -> bool {
    |a: int| contains_words(want, alias(a).0) && known.contains(alias(a).1)
}

/// How many words short form `a` has.
pub open spec fn short_form_size() -> spec_fn(int) -> nat {
    |a: int| words(alias(a).0).len()
}

/// The subject a skill from a posting maps onto, tried in this order: the
/// catalogue's own spelling; a known short form, exactly; a catalogue subject
/// named inside a longer phrase, the one with most words winning and the
/// earlier one on a tie; a short form inside a longer phrase, likewise. `None`
/// when the skill normalises to nothing or none of these applies.
pub open spec fn matched_subject(skill: Seq<char>, known: Seq<Seq<char>>) -> Option<Seq<char>> {
    let want = normalised(skill);
    let n = known.len() as int;
    let na = ALIAS_COUNT as int;
    if want.len() == 0 {
        None
    } else if exists|i: int| first_of(n, spelled_as(want, known), i) {
        Some(known[choose|i: int| first_of(n, spelled_as(want, known), i)])
    } else if exists|a: int| first_of(na, short_form_of(want, known), a) {
        Some(alias(choose|a: int| first_of(na, short_form_of(want, known), a)).1)
    } else if exists|i: int| widest_of(n, named_inside(want, known), name_size(known), i) {
        Some(known[choose|i: int| widest_of(n, named_inside(want, known), name_size(known), i)])
    } else if exists|a: int| widest_of(na, short_form_inside(want, known), short_form_size(), a) {
        Some(alias(choose|a: int| widest_of(na, short_form_inside(want, known), short_form_size(), a)).1)
    } else {
        None
    }
}

proof fn lemma_first_unique(n: int, p: spec_fn(int) -> bool, i: int, k: int)
    requires
        first_of(n, p, i),
        first_of(n, p, k),
    ensures
        i == k,
{
    if i < k {
        assert(!p(i));
    } else if k < i {
        assert(!p(k));
    }
}

proof fn lemma_widest_unique(n: int, p: spec_fn(int) -> bool, size: spec_fn(int) -> nat, i: int, k: int)
    requires
        widest_of(n, p, size, i),
        widest_of(n, p, size, k),
    ensures
        i == k,
{
    if i < k {
        assert(p(i));
        assert(size(i) < size(k));
        assert(size(k) <= size(i));
    } else if k < i {
        assert(p(k));
        assert(size(k) < size(i));
        assert(size(i) <= size(k));
    }
}

proof fn lemma_widest_exists(n: int, p: spec_fn(int) -> bool, size: spec_fn(int) -> nat)
    requires
        exists|i: int| 0 <= i < n && #[trigger] p(i),
    ensures
        exists|i: int| widest_of(n, p, size, i),
    decreases n,
{
    if exists|i: int| 0 <= i < n - 1 && #[trigger] p(i) {
        let m = n - 1;
        lemma_widest_exists(m, p, size);
        let w = choose|i: int| widest_of(m, p, size, i);
        if p(n - 1) && size(n - 1) > size(w) {
            assert(widest_of(n, p, size, n - 1));
        } else {
            assert(widest_of(n, p, size, w));
        }
    } else {
        assert(p(n - 1));
        assert(widest_of(n, p, size, n - 1));
    }
}

/// When a skill is neither a catalogue spelling nor exactly a short form, but
/// names catalogue subjects inside it as whole words, the subject it maps onto
/// is one of those named, with at least as many words as any other named, and
/// the earliest in the catalogue among those as long: the longest name wins
/// ("Java Spring Boot" is Spring Boot, not Java).
pub proof fn lemma_longest_named_subject_wins(skill: Seq<char>, known: Seq<Seq<char>>)
    requires
        normalised(skill).len() > 0,
        forall|i: int| 0 <= i < known.len() ==> normalised(#[trigger] known[i]) != normalised(skill),
        forall|a: int| 0 <= a < ALIAS_COUNT ==> !(#[trigger] alias(a).0 == normalised(skill) && known.contains(alias(a).1)),
        exists|i: int| 0 <= i < known.len() && normalised(known[i]).len() > 0
            && contains_words(normalised(skill), #[trigger] normalised(known[i])),
    ensures
        exists|i: int| {
            &&& 0 <= i < known.len()
            &&& matched_subject(skill, known) == Some(known[i])
            &&& normalised(known[i]).len() > 0
            &&& contains_words(normalised(skill), normalised(known[i]))
            &&& forall|j: int| 0 <= j < known.len() && normalised(known[j]).len() > 0
                && contains_words(normalised(skill), #[trigger] normalised(known[j]))
                ==> words(normalised(known[j])).len() <= words(normalised(known[i])).len()
            &&& forall|j: int| 0 <= j < i && normalised(known[j]).len() > 0
                && contains_words(normalised(skill), #[trigger] normalised(known[j]))
                ==> words(normalised(known[j])).len() < words(normalised(known[i])).len()
        },
{
    let want = normalised(skill);
    let n = known.len() as int;
    let na = ALIAS_COUNT as int;
    assert(!exists|i: int| first_of(n, spelled_as(want, known), i)) by {
        if exists|i: int| first_of(n, spelled_as(want, known), i) {
            let i = choose|i: int| first_of(n, spelled_as(want, known), i);
            assert(normalised(known[i]) != want);
        }
    }
    assert(!exists|a: int| first_of(na, short_form_of(want, known), a)) by {
        if exists|a: int| first_of(na, short_form_of(want, known), a) {
            let a = choose|a: int| first_of(na, short_form_of(want, known), a);
            assert(!(alias(a).0 == want && known.contains(alias(a).1)));
        }
    }
    let p = named_inside(want, known);
    let size = name_size(known);
    let k = choose|i: int| 0 <= i < known.len() && normalised(known[i]).len() > 0
        && contains_words(normalised(skill), #[trigger] normalised(known[i]));
    assert(p(k));
    lemma_widest_exists(n, p, size);
    let w = choose|i: int| widest_of(n, p, size, i);
    assert(matched_subject(skill, known) == Some(known[w]));
    assert forall|j: int| 0 <= j < known.len() && normalised(known[j]).len() > 0
        && contains_words(normalised(skill), #[trigger] normalised(known[j]))
        implies words(normalised(known[j])).len() <= words(normalised(known[w])).len() by {
        assert(p(j));
    }
    assert forall|j: int| 0 <= j < w && normalised(known[j]).len() > 0
        && contains_words(normalised(skill), #[trigger] normalised(known[j]))
        implies words(normalised(known[j])).len() < words(normalised(known[w])).len() by {
        assert(p(j));
    }
}

/// A skill that normalises to nothing matches no subject; one spelled, once
/// normalised, like a catalogue subject maps onto the first such subject; and
/// one that is exactly a known short form (and no catalogue spelling) maps
/// onto the subject of the first such short form whose subject is in the
/// catalogue.
pub proof fn lemma_exact_names_win(skill: Seq<char>, known: Seq<Seq<char>>)
    ensures
        normalised(skill).len() == 0 ==> matched_subject(skill, known) is None,
        normalised(skill).len() > 0 ==> forall|i: int| 0 <= i < known.len()
            && normalised(#[trigger] known[i]) == normalised(skill)
            && (forall|j: int| 0 <= j < i ==> normalised(known[j]) != normalised(skill))
            ==> matched_subject(skill, known) == Some(known[i]),
        normalised(skill).len() > 0 && (forall|i: int| 0 <= i < known.len() ==> normalised(#[trigger] known[i]) != normalised(skill))
            ==> forall|a: int| 0 <= a < ALIAS_COUNT && #[trigger] alias(a).0 == normalised(skill) && known.contains(alias(a).1)
            && (forall|b: int| 0 <= b < a ==> !(alias(b).0 == normalised(skill) && known.contains(alias(b).1)))
            ==> matched_subject(skill, known) == Some(alias(a).1),
{
    let want = normalised(skill);
    let n = known.len() as int;
    let na = ALIAS_COUNT as int;
    if want.len() > 0 {
        assert forall|i: int| 0 <= i < known.len()
            && normalised(#[trigger] known[i]) == want
            && (forall|j: int| 0 <= j < i ==> normalised(known[j]) != want)
            implies matched_subject(skill, known) == Some(known[i]) by {
            assert(first_of(n, spelled_as(want, known), i));
            let c = choose|c: int| first_of(n, spelled_as(want, known), c);
            lemma_first_unique(n, spelled_as(want, known), i, c);
        }
        if forall|i: int| 0 <= i < known.len() ==> normalised(#[trigger] known[i]) != want {
            assert(!exists|i: int| first_of(n, spelled_as(want, known), i)) by {
                if exists|i: int| first_of(n, spelled_as(want, known), i) {
                    let i = choose|i: int| first_of(n, spelled_as(want, known), i);
                    assert(normalised(known[i]) != want);
                }
            }
            assert forall|a: int| 0 <= a < ALIAS_COUNT && #[trigger] alias(a).0 == want && known.contains(alias(a).1)
                && (forall|b: int| 0 <= b < a ==> !(alias(b).0 == want && known.contains(alias(b).1)))
                implies matched_subject(skill, known) == Some(alias(a).1) by {
                assert(first_of(na, short_form_of(want, known), a));
                let c = choose|c: int| first_of(na, short_form_of(want, known), c);
                lemma_first_unique(na, short_form_of(want, known), a, c);
            }
        }
    }
}

/// When a skill matches no catalogue subject by spelling, by exact short form
/// or by naming one inside it, but holds short forms as whole words, it maps
/// onto the subject of one of them with at least as many words as any other
/// it holds, the earliest in the table among those as long.
pub proof fn lemma_longest_short_form_wins(skill: Seq<char>, known: Seq<Seq<char>>)
    requires
        normalised(skill).len() > 0,
        forall|i: int| 0 <= i < known.len() ==> normalised(#[trigger] known[i]) != normalised(skill),
        forall|a: int| 0 <= a < ALIAS_COUNT ==> !(#[trigger] alias(a).0 == normalised(skill) && known.contains(alias(a).1)),
        forall|i: int| 0 <= i < known.len() ==> !(normalised(known[i]).len() > 0
            && contains_words(normalised(skill), #[trigger] normalised(known[i]))),
        exists|a: int| 0 <= a < ALIAS_COUNT && contains_words(normalised(skill), #[trigger] alias(a).0)
            && known.contains(alias(a).1),
    ensures
        exists|a: int| {
            &&& 0 <= a < ALIAS_COUNT
            &&& matched_subject(skill, known) == Some(alias(a).1)
            &&& contains_words(normalised(skill), alias(a).0)
            &&& known.contains(alias(a).1)
            &&& forall|b: int| 0 <= b < ALIAS_COUNT && contains_words(normalised(skill), #[trigger] alias(b).0)
                && known.contains(alias(b).1) ==> words(alias(b).0).len() <= words(alias(a).0).len()
            &&& forall|b: int| 0 <= b < a && contains_words(normalised(skill), #[trigger] alias(b).0)
                && known.contains(alias(b).1) ==> words(alias(b).0).len() < words(alias(a).0).len()
        },
{
    let want = normalised(skill);
    let n = known.len() as int;
    let na = ALIAS_COUNT as int;
    assert(!exists|i: int| first_of(n, spelled_as(want, known), i)) by {
        if exists|i: int| first_of(n, spelled_as(want, known), i) {
            let i = choose|i: int| first_of(n, spelled_as(want, known), i);
            assert(normalised(known[i]) != want);
        }
    }
    assert(!exists|a: int| first_of(na, short_form_of(want, known), a)) by {
        if exists|a: int| first_of(na, short_form_of(want, known), a) {
            let a = choose|a: int| first_of(na, short_form_of(want, known), a);
            assert(!(alias(a).0 == want && known.contains(alias(a).1)));
        }
    }
    let p = named_inside(want, known);
    assert(!exists|i: int| widest_of(n, p, name_size(known), i)) by {
        if exists|i: int| widest_of(n, p, name_size(known), i) {
            let i = choose|i: int| widest_of(n, p, name_size(known), i);
            assert(p(i));
            assert(!(normalised(known[i]).len() > 0 && contains_words(want, normalised(known[i]))));
        }
    }
    let q = short_form_inside(want, known);
    let size = short_form_size();
    let k = choose|a: int| 0 <= a < ALIAS_COUNT && contains_words(normalised(skill), #[trigger] alias(a).0)
        && known.contains(alias(a).1);
    assert(q(k));
    lemma_widest_exists(na, q, size);
    let w = choose|a: int| widest_of(na, q, size, a);
    assert(matched_subject(skill, known) == Some(alias(w).1));
    assert forall|b: int| 0 <= b < ALIAS_COUNT && contains_words(normalised(skill), #[trigger] alias(b).0)
        && known.contains(alias(b).1) implies words(alias(b).0).len() <= words(alias(w).0).len() by {
        assert(q(b));
    }
    assert forall|b: int| 0 <= b < w && contains_words(normalised(skill), #[trigger] alias(b).0)
        && known.contains(alias(b).1) implies words(alias(b).0).len() < words(alias(w).0).len() by {
        assert(q(b));
    }
}

/// Whatever a skill maps onto is a subject of the catalogue; and a skill that
/// is no catalogue spelling, no short form, and names neither a catalogue
/// subject nor a short form inside it maps onto nothing.
pub proof fn lemma_match_is_catalogue_subject(skill: Seq<char>, known: Seq<Seq<char>>)
    ensures
        matched_subject(skill, known) matches Some(s) ==> known.contains(s),
        (forall|i: int| 0 <= i < known.len() ==> normalised(#[trigger] known[i]) != normalised(skill)
            && !(normalised(known[i]).len() > 0 && contains_words(normalised(skill), normalised(known[i]))))
        && (forall|a: int| 0 <= a < ALIAS_COUNT ==> !(#[trigger] alias(a).0 == normalised(skill) && known.contains(alias(a).1))
            && !(contains_words(normalised(skill), alias(a).0) && known.contains(alias(a).1)))
        ==> matched_subject(skill, known) is None,
{
    let want = normalised(skill);
    let n = known.len() as int;
    let na = ALIAS_COUNT as int;
    if want.len() > 0 {
        if exists|i: int| first_of(n, spelled_as(want, known), i) {
            let i = choose|i: int| first_of(n, spelled_as(want, known), i);
            assert(known[i] == known[i]);
            assert(known.contains(known[i]));
        } else if exists|a: int| first_of(na, short_form_of(want, known), a) {
            let a = choose|a: int| first_of(na, short_form_of(want, known), a);
            assert(short_form_of(want, known)(a));
        } else if exists|i: int| widest_of(n, named_inside(want, known), name_size(known), i) {
            let i = choose|i: int| widest_of(n, named_inside(want, known), name_size(known), i);
            assert(known.contains(known[i]));
        } else if exists|a: int| widest_of(na, short_form_inside(want, known), short_form_size(), a) {
            let a = choose|a: int| widest_of(na, short_form_inside(want, known), short_form_size(), a);
            assert(short_form_inside(want, known)(a));
        }
    }
}

/// Whether `target` is one of the names in `known`.
fn listed(known: &[String], target: &Vec<char>) -> (r: bool)
    ensures
        r == names(known@).contains(target@),
{
    let mut i: usize = 0;
    while i < known.len()
        invariant
            i <= known.len(),
            forall|j: int| 0 <= j < i ==> names(known@)[j] != target@,
        decreases known.len() - i,
    {
        let k = chars_of(known[i].as_str());
        if same_chars(&k, target) {
            assert(names(known@)[i as int] == target@);
            return true;
        }
        i = i + 1;
    }
    proof {
        if names(known@).contains(target@) {
            let j = choose|j: int| 0 <= j < names(known@).len() && names(known@)[j] == target@;
            assert(names(known@)[j] != target@);
        }
    }
    false
}

/// Match one skill from a posting onto a subject the app already knows.
/// `known` is the catalogue. `None` means it should become a custom subject.
pub fn match_subject(skill: &str, known: &[String]) -> (r: Option<String>)
    ensures
        opt_text(r) == matched_subject(skill@, names(known@)),
{
    let ghost kn = names(known@);
    let want = normalise_chars(skill);
    let ghost w = want@;
    if want.len() == 0 {
        return None;
    }
    let n = known.len();
    assert(kn.len() == n);

    let mut norms: Vec<Vec<char>> = Vec::new();
    let mut i: usize = 0;
    while i < n
        invariant
            i <= n,
            n == known.len(),
            kn == names(known@),
            norms.len() == i,
            forall|j: int| 0 <= j < i ==> #[trigger] norms@[j]@ == normalised(kn[j]),
        decreases n - i,
    {
        norms.push(normalise_chars(known[i].as_str()));
        i = i + 1;
    }

    // 1. The catalogue's own spelling.
    let ghost p1 = spelled_as(w, kn);
    let mut i: usize = 0;
    while i < n
        invariant
            i <= n,
            n == known.len(),
            n == norms.len(),
            kn == names(known@),
            p1 == spelled_as(w, kn),
            w == want@,
            w == normalised(skill@),
            w.len() > 0,
            forall|j: int| 0 <= j < n ==> #[trigger] norms@[j]@ == normalised(kn[j]),
            forall|j: int| 0 <= j < i ==> !#[trigger] p1(j),
        decreases n - i,
    {
        if same_chars(&norms[i], &want) {
            let hit = known[i].clone();
            proof {
                assert(p1(i as int));
                assert(first_of(n as int, p1, i as int));
                let c = choose|c: int| first_of(n as int, p1, c);
                lemma_first_unique(n as int, p1, i as int, c);
                assert(hit@ == kn[i as int]);
                assert(w == normalised(skill@));
                assert(w.len() != 0);
                assert(matched_subject(skill@, kn) == Some(kn[i as int]));
            }
            return Some(hit);
        }
        i = i + 1;
    }
    assert(!exists|c: int| first_of(n as int, p1, c));

    // 2. A known short form, exactly.
    let ghost p2 = short_form_of(w, kn);
    let mut a: usize = 0;
    while a < ALIAS_COUNT
        invariant
            a <= ALIAS_COUNT,
            kn == names(known@),
            p2 == short_form_of(w, kn),
            n == known.len(),
            !exists|c: int| first_of(n as int, spelled_as(w, kn), c),
            w == want@,
            w == normalised(skill@),
            w.len() > 0,
            forall|j: int| 0 <= j < a ==> !#[trigger] p2(j),
        decreases ALIAS_COUNT - a,
    {
        let (short, target) = alias_pair(a);
        let short = chars_of(short);
        let target_chars = chars_of(target);
        if same_chars(&short, &want) && listed(known, &target_chars) {
            proof {
                assert(p2(a as int));
                assert(first_of(ALIAS_COUNT as int, p2, a as int));
                let c = choose|c: int| first_of(ALIAS_COUNT as int, p2, c);
                lemma_first_unique(ALIAS_COUNT as int, p2, a as int, c);
                assert(matched_subject(skill@, kn) == Some(alias(a as int).1));
            }
            return Some(owned(target));
        }
        a = a + 1;
    }
    assert(!exists|c: int| first_of(ALIAS_COUNT as int, p2, c));

    // 3. A catalogue subject named inside a longer phrase. Longest name wins.
    let want_words = split_words(&want);
    let ghost p3 = named_inside(w, kn);
    let ghost s3 = name_size(kn);
    let mut best: Option<usize> = None;
    let mut best_size: usize = 0;
    let mut i: usize = 0;
    while i < n
        invariant
            i <= n,
            n == known.len(),
            n == norms.len(),
            kn == names(known@),
            p3 == named_inside(w, kn),
            s3 == name_size(kn),
            w == want@,
            w == normalised(skill@),
            w.len() > 0,
            seqs(want_words@) == words(w),
            forall|j: int| 0 <= j < n ==> #[trigger] norms@[j]@ == normalised(kn[j]),
            match best {
                None => forall|j: int| 0 <= j < i ==> !#[trigger] p3(j),
                Some(b) => widest_of(i as int, p3, s3, b as int) && best_size == s3(b as int),
            },
        decreases n - i,
    {
        let name_words = split_words(&norms[i]);
        let here = norms[i].len() > 0 && has_word_run(&want_words, &name_words);
        assert(here == p3(i as int));
        assert(name_words.len() == s3(i as int)) by {
            assert(seqs(name_words@).len() == name_words.len());
        }
        let better = match best {
            None => true,
            Some(_) => name_words.len() > best_size,
        };
        if here && better {
            best = Some(i);
            best_size = name_words.len();
        }
        i = i + 1;
    }
    if let Some(b) = best {
        let hit = known[b].clone();
        proof {
            let c = choose|c: int| widest_of(n as int, p3, s3, c);
            lemma_widest_unique(n as int, p3, s3, b as int, c);
        }
        return Some(hit);
    }
    assert(!exists|c: int| widest_of(n as int, p3, s3, c)) by {
        if exists|c: int| widest_of(n as int, p3, s3, c) {
            let c = choose|c: int| widest_of(n as int, p3, s3, c);
            assert(p3(c));
        }
    }

    // 4. A short form inside a longer phrase ("experience with k8s").
    let ghost p4 = short_form_inside(w, kn);
    let ghost s4 = short_form_size();
    let mut best: Option<usize> = None;
    let mut best_size: usize = 0;
    let mut a: usize = 0;
    while a < ALIAS_COUNT
        invariant
            a <= ALIAS_COUNT,
            kn == names(known@),
            p4 == short_form_inside(w, kn),
            s4 == short_form_size(),
            w == want@,
            w == normalised(skill@),
            w.len() > 0,
            seqs(want_words@) == words(w),
            match best {
                None => forall|j: int| 0 <= j < a ==> !#[trigger] p4(j),
                Some(b) => b < ALIAS_COUNT && widest_of(a as int, p4, s4, b as int) && best_size == s4(b as int),
            },
        decreases ALIAS_COUNT - a,
    {
        let (short, target) = alias_pair(a);
        let short_words = split_words(&chars_of(short));
        let target_chars = chars_of(target);
        let here = has_word_run(&want_words, &short_words) && listed(known, &target_chars);
        assert(here == p4(a as int));
        assert(short_words.len() == s4(a as int)) by {
            assert(seqs(short_words@).len() == short_words.len());
        }
        let better = match best {
            None => true,
            Some(_) => short_words.len() > best_size,
        };
        if here && better {
            best = Some(a);
            best_size = short_words.len();
        }
        a = a + 1;
    }
    if let Some(b) = best {
        let (_, target) = alias_pair(b);
        proof {
            let c = choose|c: int| widest_of(ALIAS_COUNT as int, p4, s4, c);
            lemma_widest_unique(ALIAS_COUNT as int, p4, s4, b as int, c);
        }
        return Some(owned(target));
    }
    assert(!exists|c: int| widest_of(ALIAS_COUNT as int, p4, s4, c)) by {
        if exists|c: int| widest_of(ALIAS_COUNT as int, p4, s4, c) {
            let c = choose|c: int| widest_of(ALIAS_COUNT as int, p4, s4, c);
            assert(p4(c));
        }
    }
    None
}


// ---------------------------------------------------------------------------
// Naming a custom subject
// ---------------------------------------------------------------------------

/// At most the first `k` of `ws`.
pub open spec fn first_words(ws: Seq<Seq<char>>, k: int) -> Seq<Seq<char>> {
    if ws.len() <= k {
        ws
    } else {
        ws.take(k)
    }
}

/// Whether some character of `w` is uppercase.
pub open spec fn has_capital(w: Seq<char>) -> bool {
    exists|i: int| 0 <= i < w.len() && uppercase_char(#[trigger] w[i])
}

/// A skill the catalogue does not cover, tidied into a subject name: its first
/// four words joined by single spaces; left as written when its first word
/// carries a capital (gRPC, GraphQL), otherwise with the first character
/// uppercased. Empty when the skill has no words.
pub open spec fn custom_name(skill: Seq<char>) -> Seq<char> {
    let out = join(first_words(words(trimmed(skill)), 4), seq![' ']);
    if out.len() == 0 {
        seq![]
    } else if words(out).len() > 0 && has_capital(words(out)[0]) {
        out
    } else {
        uppercase_of(out[0]) + out.drop_first()
    }
}

/// Tidy a skill the catalogue does not cover into a subject name worth
/// studying, so a custom subject does not end up called "strong grpc skills".
pub fn custom_subject_name(skill: &str) -> (r: String)
    ensures
        r@ == custom_name(skill@),
{
    let trimmed_skill = trim_chars(&chars_of(skill));
    let all = split_words(&trimmed_skill);
    let mut first: Vec<Vec<char>> = Vec::new();
    let mut i: usize = 0;
    while i < all.len() && i < 4
        invariant
            i <= all.len(),
            i <= 4,
            seqs(first@) =~= seqs(all@).take(i as int),
        decreases all.len() - i,
    {
        let w = all[i].clone();
        assert(w@ == all@[i as int]@);
        let ghost prev = first@;
        first.push(w);
        assert(first@ == prev.push(w));
        assert(seqs(first@) =~= seqs(prev).push(w@));
        assert(seqs(all@).take(i + 1) =~= seqs(all@).take(i as int).push(all@[i as int]@));
        i = i + 1;
    }
    assert(seqs(first@) =~= first_words(seqs(all@), 4));
    let mut sep: Vec<char> = Vec::new();
    sep.push(' ');
    assert(sep@ =~= seq![' ']);
    let out = join_chars(&first, &sep);
    if out.len() == 0 {
        return String::new();
    }
    let out_words = split_words(&out);
    let mut styles_itself = false;
    if out_words.len() > 0 {
        let lead = &out_words[0];
        let mut j: usize = 0;
        while j < lead.len()
            invariant
                j <= lead.len(),
                !styles_itself ==> forall|k: int| 0 <= k < j ==> !uppercase_char(#[trigger] lead@[k]),
                styles_itself ==> has_capital(lead@),
            decreases lead.len() - j,
        {
            if is_uppercase(lead[j]) {
                styles_itself = true;
            }
            j = j + 1;
        }
        assert(seqs(out_words@)[0] == lead@);
    }
    if styles_itself {
        return string_of(&out);
    }
    let mut name = char_to_uppercase(out[0]);
    let mut k: usize = 1;
    while k < out.len()
        invariant
            1 <= k <= out.len(),
            name@ =~= uppercase_of(out@[0]) + out@.subrange(1, k as int),
        decreases out.len() - k,
    {
        push_char(&mut name, out[k]);
        k = k + 1;
    }
    assert(out@.drop_first() =~= out@.subrange(1, out.len() as int));
    name
}

} // verus!
