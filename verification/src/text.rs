//! Character-level string operations with their specifications.
//!
//! Strings are modelled by their characters (`Seq<char>`); every executable
//! function here states its result over that model.
use vstd::prelude::*;
use vstd::string::StringExecFns;
use vstd::utf8::is_ascii_chars;

verus! {

broadcast use vstd::string::group_string_axioms;

// ---------------------------------------------------------------------------
// Specifications
// ---------------------------------------------------------------------------
/// Every non-overlapping occurrence of `pat` in `s`, found from the left,
/// replaced by `rep` (the meaning of `str::replace` for a non-empty pattern).
pub open spec fn replaced(s: Seq<char>, pat: Seq<char>, rep: Seq<char>) -> Seq<char>
    decreases s.len(),
{
    if s.len() == 0 {
        Seq::empty()
    } else if 0 < pat.len() <= s.len() && s.take(pat.len() as int) == pat {
        rep + replaced(s.skip(pat.len() as int), pat, rep)
    } else {
        seq![s[0]] + replaced(s.skip(1), pat, rep)
    }
}

/// `s` with every occurrence of the character `c` removed.
pub open spec fn without_char(s: Seq<char>, c: char) -> Seq<char>
    decreases s.len(),
{
    if s.len() == 0 {
        Seq::empty()
    } else if s[0] == c {
        without_char(s.skip(1), c)
    } else {
        seq![s[0]] + without_char(s.skip(1), c)
    }
}

/// `s` with its leading `'/'` characters removed.
pub open spec fn trim_leading_slashes(s: Seq<char>) -> Seq<char>
    decreases s.len(),
{
    if s.len() > 0 && s[0] == '/' {
        trim_leading_slashes(s.skip(1))
    } else {
        s
    }
}

/// `s` without `prefix` when it starts with it, else `s` itself.
pub open spec fn without_prefix(s: Seq<char>, prefix: Seq<char>) -> Seq<char> {
    if prefix.is_prefix_of(s) {
        s.skip(prefix.len() as int)
    } else {
        s
    }
}

/// The separator characters of a parameter name: `'-'` and `'/'`.
pub open spec fn is_separator(c: char) -> bool {
    c == '-' || c == '/'
}

/// A separator becomes `'_'`; any other character stays.
pub open spec fn underscore_char(c: char) -> char {
    if is_separator(c) {
        '_'
    } else {
        c
    }
}

/// `s` with every `'-'` and `'/'` replaced by `'_'`.
pub open spec fn underscored(s: Seq<char>) -> Seq<char> {
    s.map_values(|c: char| underscore_char(c))
}

/// The separator characters of a variable name made for a program's
/// environment: `'.'`, `'-'` and `'/'`.
pub open spec fn is_name_separator(c: char) -> bool {
    c == '.' || c == '-' || c == '/'
}

/// A name separator becomes `'_'`; any other character stays.
pub open spec fn name_char(c: char) -> char {
    if is_name_separator(c) {
        '_'
    } else {
        c
    }
}

/// `s` with every `'.'`, `'-'` and `'/'` replaced by `'_'`.
pub open spec fn name_underscored(s: Seq<char>) -> Seq<char> {
    s.map_values(|c: char| name_char(c))
}

/// `'a'..='z'` mapped to `'A'..='Z'`; every other character unchanged.
pub open spec fn ascii_upper_char(c: char) -> char {
    if 'a' <= c <= 'z' {
        ((c as u32) - 32) as char
    } else {
        c
    }
}

/// `s` with its ASCII lower-case letters made upper-case.
pub open spec fn ascii_upper(s: Seq<char>) -> Seq<char> {
    s.map_values(|c: char| ascii_upper_char(c))
}

/// What `str::to_uppercase` returns for a string with characters `s`:
/// the full Unicode upper-case mapping, a function of `s` alone.
pub uninterp spec fn unicode_upper(s: Seq<char>) -> Seq<char>;

// ---------------------------------------------------------------------------
// Lemmas
// ---------------------------------------------------------------------------
/// Replacing a one-character pattern by one character maps each character.
pub proof fn lemma_replaced_single(s: Seq<char>, a: char, b: char)
    ensures
        replaced(s, seq![a], seq![b]).len() == s.len(),
        forall|i: int|
            0 <= i < s.len() ==> #[trigger] replaced(s, seq![a], seq![b])[i] == if s[i] == a {
                b
            } else {
                s[i]
            },
    decreases s.len(),
{
    if s.len() > 0 {
        lemma_replaced_single(s.skip(1), a, b);
        assert(s.take(1) =~= seq![s[0]]);
        let r = replaced(s, seq![a], seq![b]);
        let t = replaced(s.skip(1), seq![a], seq![b]);
        if s[0] == a {
            assert(r == seq![b] + t);
        } else {
            assert(seq![s[0]][0] != seq![a][0]);
            assert(r == seq![s[0]] + t);
        }
        assert forall|i: int| 0 <= i < s.len() implies #[trigger] r[i] == if s[i] == a {
            b
        } else {
            s[i]
        } by {
            if i > 0 {
                assert(r[i] == t[i - 1]);
                assert(s.skip(1)[i - 1] == s[i]);
            }
        }
    }
}

/// Replacing a one-character pattern by nothing removes that character.
pub proof fn lemma_replaced_removes(s: Seq<char>, a: char)
    ensures
        replaced(s, seq![a], Seq::empty()) == without_char(s, a),
    decreases s.len(),
{
    if s.len() > 0 {
        lemma_replaced_removes(s.skip(1), a);
        assert(s.take(1) =~= seq![s[0]]);
        let t = replaced(s.skip(1), seq![a], Seq::empty());
        if s[0] == a {
            assert(Seq::<char>::empty() + t =~= t);
        } else {
            assert(seq![s[0]][0] != seq![a][0]);
        }
    }
}

/// A pattern whose first character does not occur in `s` leaves `s` as it is.
pub proof fn lemma_replaced_absent(s: Seq<char>, pat: Seq<char>, rep: Seq<char>)
    requires
        pat.len() > 0,
        !s.contains(pat[0]),
    ensures
        replaced(s, pat, rep) == s,
    decreases s.len(),
{
    if s.len() > 0 {
        assert(!s.skip(1).contains(pat[0])) by {
            if s.skip(1).contains(pat[0]) {
                let k = choose|k: int| 0 <= k < s.skip(1).len() && s.skip(1)[k] == pat[0];
                assert(s[k + 1] == pat[0]);
            }
        }
        lemma_replaced_absent(s.skip(1), pat, rep);
        if pat.len() <= s.len() && s.take(pat.len() as int) == pat {
            assert(s.take(pat.len() as int)[0] == s[0]);
            assert(s.contains(s[0]));
        }
        assert(seq![s[0]] + s.skip(1) == s);
    }
}

/// Removing a character leaves no occurrence of it.
pub proof fn lemma_without_char_absent(s: Seq<char>, c: char)
    ensures
        !without_char(s, c).contains(c),
    decreases s.len(),
{
    if s.len() > 0 {
        lemma_without_char_absent(s.skip(1), c);
        if s[0] != c {
            let r = seq![s[0]] + without_char(s.skip(1), c);
            if r.contains(c) {
                let k = choose|k: int| 0 <= k < r.len() && r[k] == c;
                assert(k > 0);
                assert(without_char(s.skip(1), c)[k - 1] == c);
            }
        }
    }
}

/// Trimming leaves a string that does not start with `'/'` and is a suffix.
pub proof fn lemma_trim_leading_slashes(s: Seq<char>)
    ensures
        trim_leading_slashes(s).len() > 0 ==> trim_leading_slashes(s)[0] != '/',
        exists|k: int|
            0 <= k <= s.len() && trim_leading_slashes(s) == s.skip(k) && (forall|j: int|
                0 <= j < k ==> s[j] == '/'),
    decreases s.len(),
{
    if s.len() > 0 && s[0] == '/' {
        lemma_trim_leading_slashes(s.skip(1));
        let k = choose|k: int|
            0 <= k <= s.skip(1).len() && trim_leading_slashes(s.skip(1)) == s.skip(1).skip(k)
                && (forall|j: int| 0 <= j < k ==> s.skip(1)[j] == '/');
        assert(s.skip(1).skip(k) == s.skip(k + 1));
        assert(forall|j: int| 0 <= j < k + 1 ==> s[j] == '/') by {
            assert forall|j: int| 0 <= j < k + 1 implies s[j] == '/' by {
                if j > 0 {
                    assert(s.skip(1)[j - 1] == '/');
                }
            }
        }
    } else {
        assert(s.skip(0) == s);
    }
}

/// A variable name made from any name holds neither `'-'` nor `'/'`.
pub proof fn law_env_names_have_no_separators(s: Seq<char>)
    ensures
        !underscored(s).contains('-'),
        !underscored(s).contains('/'),
{
    if underscored(s).contains('-') {
        let k = choose|k: int| 0 <= k < underscored(s).len() && underscored(s)[k] == '-';
        assert(underscored(s)[k] == underscore_char(s[k]));
    }
    if underscored(s).contains('/') {
        let k = choose|k: int| 0 <= k < underscored(s).len() && underscored(s)[k] == '/';
        assert(underscored(s)[k] == underscore_char(s[k]));
    }
}

/// A variable name made for a program's environment holds no `'.'`, `'-'`
/// or `'/'`.
pub proof fn law_program_env_names_have_no_separators(s: Seq<char>)
    ensures
        !name_underscored(s).contains('.'),
        !name_underscored(s).contains('-'),
        !name_underscored(s).contains('/'),
{
    let r = name_underscored(s);
    if r.contains('.') {
        let k = choose|k: int| 0 <= k < r.len() && r[k] == '.';
        assert(r[k] == name_char(s[k]));
    }
    if r.contains('-') {
        let k = choose|k: int| 0 <= k < r.len() && r[k] == '-';
        assert(r[k] == name_char(s[k]));
    }
    if r.contains('/') {
        let k = choose|k: int| 0 <= k < r.len() && r[k] == '/';
        assert(r[k] == name_char(s[k]));
    }
}

/// After the ASCII upper-case mapping no character is an ASCII lower-case
/// letter.
proof fn lemma_ascii_upper_char_not_lower(c: char)
    ensures
        !('a' <= ascii_upper_char(c) <= 'z'),
{
    if 'a' <= c <= 'z' {
        assert(((c as u32) - 32) as char == ascii_upper_char(c));
        assert('A' <= ascii_upper_char(c) <= 'Z');
    }
}

/// A variable name made for a program's environment holds no ASCII
/// lower-case letter, and has as many characters as the name it came from.
pub proof fn law_program_env_names_are_upper_case(s: Seq<char>)
    ensures
        name_underscored(ascii_upper(s)).len() == s.len(),
        forall|i: int|
            0 <= i < s.len() ==> !('a' <= #[trigger] name_underscored(ascii_upper(s))[i] <= 'z'),
{
    assert forall|i: int| 0 <= i < s.len() implies !('a' <= #[trigger] name_underscored(
        ascii_upper(s),
    )[i] <= 'z') by {
        assert(ascii_upper(s)[i] == ascii_upper_char(s[i]));
        lemma_ascii_upper_char_not_lower(s[i]);
    }
}

/// Making a variable name for a program's environment is idempotent: a name
/// made once stays as it is when made again.
pub proof fn law_program_env_names_are_stable(s: Seq<char>)
    ensures
        name_underscored(ascii_upper(name_underscored(ascii_upper(s)))) == name_underscored(
            ascii_upper(s),
        ),
{
    let once = name_underscored(ascii_upper(s));
    law_program_env_names_are_upper_case(s);
    assert forall|i: int| 0 <= i < once.len() implies name_underscored(ascii_upper(once))[i]
        == once[i] by {
        assert(!('a' <= once[i] <= 'z'));
        assert(name_char(ascii_upper_char(s[i])) == once[i]);
    }
    assert(name_underscored(ascii_upper(once)) =~= once);
}

/// On an ASCII name, upper-casing and making `'-'` and `'/'` into `'_'`
/// leaves no ASCII lower-case letter, no `'-'` and no `'/'`, and keeps the
/// number of characters.
pub proof fn law_ascii_names_upper_cased(s: Seq<char>)
    ensures
        underscored(ascii_upper(s)).len() == s.len(),
        forall|i: int|
            0 <= i < s.len() ==> !('a' <= #[trigger] underscored(ascii_upper(s))[i] <= 'z'),
        !underscored(ascii_upper(s)).contains('-'),
        !underscored(ascii_upper(s)).contains('/'),
{
    assert forall|i: int| 0 <= i < s.len() implies !('a' <= #[trigger] underscored(
        ascii_upper(s),
    )[i] <= 'z') by {
        assert(ascii_upper(s)[i] == ascii_upper_char(s[i]));
        lemma_ascii_upper_char_not_lower(s[i]);
    }
    law_env_names_have_no_separators(ascii_upper(s));
}

/// Making a variable name for a program's environment keeps the number of
/// characters and changes a character only when it is `'.'`, `'-'` or `'/'`
/// (each made `'_'`) or an ASCII lower-case letter (made the upper-case letter
/// 32 code points below it); every other character, digits among them, is
/// kept.
pub proof fn law_program_env_name_characters(s: Seq<char>)
    ensures
        name_underscored(ascii_upper(s)).len() == s.len(),
        forall|i: int|
            0 <= i < s.len() && (s[i] == '.' || s[i] == '-' || s[i] == '/') ==> #[trigger]
                name_underscored(ascii_upper(s))[i] == '_',
        forall|i: int|
            0 <= i < s.len() && 'a' <= s[i] <= 'z' ==> (#[trigger] name_underscored(
                ascii_upper(s),
            )[i]) as u32 == (s[i] as u32) - 32,
        forall|i: int|
            0 <= i < s.len() && s[i] != '.' && s[i] != '-' && s[i] != '/' && !('a' <= s[i]
                <= 'z') ==> #[trigger] name_underscored(ascii_upper(s))[i] == s[i],
{
    assert forall|i: int| 0 <= i < s.len() implies #[trigger] name_underscored(ascii_upper(s))[i]
        == name_underscored(ascii_upper(s))[i] && {
        let r = name_underscored(ascii_upper(s))[i];
        &&& (s[i] == '.' || s[i] == '-' || s[i] == '/') ==> r == '_'
        &&& ('a' <= s[i] <= 'z') ==> r as u32 == (s[i] as u32) - 32
        &&& (s[i] != '.' && s[i] != '-' && s[i] != '/' && !('a' <= s[i] <= 'z')) ==> r == s[i]
    } by {
        assert(ascii_upper(s)[i] == ascii_upper_char(s[i]));
        assert(name_underscored(ascii_upper(s))[i] == name_char(ascii_upper_char(s[i])));
        if 'a' <= s[i] <= 'z' {
            lemma_ascii_upper_char_not_lower(s[i]);
            assert(ascii_upper_char(s[i]) == ((s[i] as u32) - 32) as char);
        }
    }
}

/// Making `'-'` and `'/'` into `'_'` keeps the number of characters, makes
/// each `'-'` and `'/'` a `'_'`, and keeps every other character.
pub proof fn law_dash_slash_characters(s: Seq<char>)
    ensures
        underscored(s).len() == s.len(),
        forall|i: int|
            0 <= i < s.len() && (s[i] == '-' || s[i] == '/') ==> #[trigger] underscored(s)[i]
                == '_',
        forall|i: int|
            0 <= i < s.len() && s[i] != '-' && s[i] != '/' ==> #[trigger] underscored(s)[i]
                == s[i],
{
}

/// Without a prefix: when `prefix` starts `s`, the prefix followed by the
/// result is `s`; otherwise the result is `s`.
pub proof fn law_without_prefix(s: Seq<char>, prefix: Seq<char>)
    ensures
        prefix.is_prefix_of(s) ==> prefix + without_prefix(s, prefix) == s,
        !prefix.is_prefix_of(s) ==> without_prefix(s, prefix) == s,
{
    if prefix.is_prefix_of(s) {
        assert(prefix + s.skip(prefix.len() as int) =~= s);
    }
}

/// Removing a character: nothing is removed from a string without it, one
/// character is removed exactly when it is `c`, and removal distributes
/// over concatenation.
pub proof fn law_without_char(a: Seq<char>, b: Seq<char>, c: char, x: char)
    ensures
        !a.contains(c) ==> without_char(a, c) == a,
        without_char(seq![x], c) == (if x == c { Seq::<char>::empty() } else { seq![x] }),
        without_char(a + b, c) == without_char(a, c) + without_char(b, c),
    decreases a.len(),
{
    assert(seq![x].skip(1) =~= Seq::<char>::empty());
    if !a.contains(c) {
        lemma_without_char_keeps(a, c);
    }
    if a.len() > 0 {
        law_without_char(a.skip(1), b, c, x);
        assert((a + b).skip(1) =~= a.skip(1) + b);
        assert((a + b)[0] == a[0]);
        if a[0] != c {
            assert(seq![a[0]] + (without_char(a.skip(1), c) + without_char(b, c)) =~= (seq![a[0]]
                + without_char(a.skip(1), c)) + without_char(b, c));
        }
    } else {
        assert(a + b =~= b);
        assert(without_char(a, c) + without_char(b, c) =~= without_char(b, c));
    }
}

/// A string without `c` is left as it is by removing `c`.
proof fn lemma_without_char_keeps(a: Seq<char>, c: char)
    requires
        !a.contains(c),
    ensures
        without_char(a, c) == a,
    decreases a.len(),
{
    if a.len() > 0 {
        assert(a[0] != c) by {
            assert(a.contains(a[0]));
        }
        assert(!a.skip(1).contains(c)) by {
            if a.skip(1).contains(c) {
                let k = choose|k: int| 0 <= k < a.skip(1).len() && a.skip(1)[k] == c;
                assert(a[k + 1] == c);
            }
        }
        lemma_without_char_keeps(a.skip(1), c);
        assert(seq![a[0]] + a.skip(1) =~= a);
    }
}

// ---------------------------------------------------------------------------
// Executable operations
// ---------------------------------------------------------------------------
/// The characters of `s`, in order.
pub fn chars_of(s: &str) -> (res: Vec<char>)
    ensures
        res@ == s@,
{
    let mut res: Vec<char> = Vec::new();
    for c in it: s.chars()
        invariant
            res@ == it.seq().take(it.index() as int),
    {
        res.push(c);
    }
    res
}

/// Calls `String::push`: the string afterwards is the string before with `c`
/// appended.
#[verifier::external_body]
fn push_char(s: &mut String, c: char)
    ensures
        final(s)@ == old(s)@.push(c),
{
    s.push(c);
}

/// A string made of the characters `cs[from..]`.
pub fn string_from(cs: &Vec<char>, from: usize) -> (res: String)
    requires
        from <= cs.len(),
    ensures
        res@ == cs@.skip(from as int),
{
    let mut res = String::new();
    let mut i: usize = from;
    while i < cs.len()
        invariant
            from <= i <= cs.len(),
            res@ == cs@.subrange(from as int, i as int),
        decreases cs.len() - i,
    {
        push_char(&mut res, cs[i]);
        proof {
            assert(cs@.subrange(from as int, i + 1) == cs@.subrange(from as int, i as int).push(
                cs@[i as int],
            ));
        }
        i = i + 1;
    }
    res
}

/// Whether `a` and `b` are the same string.
pub fn same_text(a: &str, b: &str) -> (res: bool)
    ensures
        res == (a@ == b@),
{
    let x = chars_of(a);
    let y = chars_of(b);
    if x.len() != y.len() {
        return false;
    }
    let mut i: usize = 0;
    while i < x.len()
        invariant
            x@ == a@,
            y@ == b@,
            x.len() == y.len(),
            i <= x.len(),
            forall|j: int| 0 <= j < i ==> x@[j] == y@[j],
        decreases x.len() - i,
    {
        if x[i] != y[i] {
            proof {
                assert(x@[i as int] != y@[i as int]);
            }
            return false;
        }
        i = i + 1;
    }
    proof {
        assert(x@ =~= y@);
    }
    true
}

/// Whether `p` is a prefix of `s`.
pub fn has_prefix(s: &Vec<char>, p: &Vec<char>) -> (res: bool)
    ensures
        res == p@.is_prefix_of(s@),
{
    if p.len() > s.len() {
        return false;
    }
    let mut i: usize = 0;
    while i < p.len()
        invariant
            p.len() <= s.len(),
            i <= p.len(),
            forall|j: int| 0 <= j < i ==> s@[j] == p@[j],
        decreases p.len() - i,
    {
        if s[i] != p[i] {
            proof {
                assert(p@[i as int] != s@.subrange(0, p@.len() as int)[i as int]);
            }
            return false;
        }
        i = i + 1;
    }
    proof {
        assert(p@ =~= s@.subrange(0, p@.len() as int));
    }
    true
}

/// Whether `p` occurs in `s` at index `at`.
fn occurs_at(s: &Vec<char>, at: usize, p: &Vec<char>) -> (res: bool)
    requires
        at <= s.len(),
    ensures
        res == (p@.len() <= s@.len() - at && s@.skip(at as int).take(p@.len() as int) == p@),
{
    if p.len() > s.len() - at {
        return false;
    }
    let mut i: usize = 0;
    while i < p.len()
        invariant
            at <= s.len(),
            p.len() <= s.len() - at,
            i <= p.len(),
            forall|j: int| 0 <= j < i ==> s@[at + j] == p@[j],
        decreases p.len() - i,
    {
        if s[at + i] != p[i] {
            proof {
                assert(s@.skip(at as int).take(p@.len() as int)[i as int] != p@[i as int]);
            }
            return false;
        }
        i = i + 1;
    }
    proof {
        assert(s@.skip(at as int).take(p@.len() as int) =~= p@);
    }
    true
}

/// `s` with every non-overlapping occurrence of the non-empty `pat`, found
/// from the left, replaced by `rep`.
pub fn replace(s: &str, pat: &str, rep: &str) -> (res: String)
    requires
        pat@.len() > 0,
    ensures
        res@ == replaced(s@, pat@, rep@),
{
    let cs = chars_of(s);
    let ps = chars_of(pat);
    let n = cs.len();
    let m = ps.len();
    let mut res = String::new();
    let mut i: usize = 0;
    proof {
        assert(cs@.skip(0) == cs@);
    }
    while i < n
        invariant
            n == cs@.len(),
            m == ps@.len(),
            m > 0,
            i <= n,
            replaced(cs@, ps@, rep@) == res@ + replaced(cs@.skip(i as int), ps@, rep@),
        decreases n - i,
    {
        let ghost rest = cs@.skip(i as int);
        if occurs_at(&cs, i, &ps) {
            proof {
                assert(rest.skip(m as int) == cs@.skip(i + m));
                assert(replaced(rest, ps@, rep@) == rep@ + replaced(cs@.skip(i + m), ps@, rep@));
            }
            res.append(rep);
            i = i + m;
        } else {
            proof {
                assert(rest.skip(1) == cs@.skip(i + 1));
                assert(replaced(rest, ps@, rep@) == seq![cs@[i as int]] + replaced(
                    cs@.skip(i + 1),
                    ps@,
                    rep@,
                ));
            }
            push_char(&mut res, cs[i]);
            i = i + 1;
        }
    }
    proof {
        assert(replaced(cs@.skip(n as int), ps@, rep@) == Seq::<char>::empty());
        assert(res@ + Seq::<char>::empty() == res@);
    }
    res
}

/// Calls `str::to_uppercase`. Its result is the Unicode upper-case mapping of
/// `s`, which depends on `s` alone and is named `unicode_upper`. Of that
/// mapping only its ASCII part is stated: on an ASCII string it maps
/// `'a'..='z'` to `'A'..='Z'` and keeps every other character.
#[verifier::external_body]
fn to_uppercase(s: &str) -> (res: String)
    ensures
        res@ == unicode_upper(s@),
        is_ascii_chars(s@) ==> res@ == ascii_upper(s@),
{
    s.to_uppercase()
}

/// `c` with an ASCII lower-case letter made upper-case.
pub fn to_ascii_upper_char(c: char) -> (res: char)
    ensures
        res == ascii_upper_char(c),
{
    if 'a' <= c && c <= 'z' {
        let b: u8 = (c as u8) - 32;
        b as char
    } else {
        c
    }
}

/// `s` with its ASCII lower-case letters made upper-case.
pub fn to_ascii_upper(s: &str) -> (res: String)
    ensures
        res@ == ascii_upper(s@),
{
    let cs = chars_of(s);
    let mut res = String::new();
    let mut i: usize = 0;
    while i < cs.len()
        invariant
            i <= cs.len(),
            cs@ == s@,
            res@ == ascii_upper(cs@.take(i as int)),
        decreases cs.len() - i,
    {
        let u = to_ascii_upper_char(cs[i]);
        push_char(&mut res, u);
        proof {
            assert(ascii_upper(cs@.take(i + 1)) == ascii_upper(cs@.take(i as int)).push(u));
        }
        i = i + 1;
    }
    proof {
        assert(cs@.take(cs.len() as int) == cs@);
    }
    res
}

/// `s` with every `'-'` and `'/'` replaced by `'_'`.
pub fn underscore_separators(s: &str) -> (res: String)
    ensures
        res@ == underscored(s@),
{
    proof {
        reveal_strlit("-");
        reveal_strlit("/");
        reveal_strlit("_");
        assert("-"@ =~= seq!['-']);
        assert("/"@ =~= seq!['/']);
        assert("_"@ =~= seq!['_']);
    }
    let dashed = replace(s, "-", "_");
    let res = replace(dashed.as_str(), "/", "_");
    proof {
        lemma_replaced_single(s@, '-', '_');
        lemma_replaced_single(dashed@, '/', '_');
        assert forall|i: int| 0 <= i < s@.len() implies res@[i] == underscored(s@)[i] by {
            assert(dashed@[i] == if s@[i] == '-' { '_' } else { s@[i] });
            assert(res@[i] == if dashed@[i] == '/' { '_' } else { dashed@[i] });
        }
        assert(res@ =~= underscored(s@));
    }
    res
}

/// The environment variable name for a parameter name under the Unicode
/// upper-case mapping: upper-cased, then separators made `'_'`.
pub fn upper_env_name(name: &str) -> (res: String)
    ensures
        res@ == underscored(unicode_upper(name@)),
        is_ascii_chars(name@) ==> res@ == underscored(ascii_upper(name@)),
{
    let upper = to_uppercase(name);
    underscore_separators(upper.as_str())
}

/// `s` with every `'.'`, `'-'` and `'/'` replaced by `'_'`.
pub fn underscore_name_separators(s: &str) -> (res: String)
    ensures
        res@ == name_underscored(s@),
{
    proof {
        reveal_strlit(".");
        assert("."@ =~= seq!['.']);
        reveal_strlit("_");
        assert("_"@ =~= seq!['_']);
    }
    let dotted = replace(s, ".", "_");
    let res = underscore_separators(dotted.as_str());
    proof {
        lemma_replaced_single(s@, '.', '_');
        assert forall|i: int| 0 <= i < s@.len() implies res@[i] == name_underscored(s@)[i] by {
            assert(dotted@[i] == if s@[i] == '.' { '_' } else { s@[i] });
            assert(res@[i] == underscore_char(dotted@[i]));
        }
        assert(res@ =~= name_underscored(s@));
    }
    res
}

/// The environment variable name for a parameter name under the ASCII
/// upper-case mapping: upper-cased, then `'.'`, `'-'` and `'/'` made `'_'`.
pub fn ascii_env_name(name: &str) -> (res: String)
    ensures
        res@ == name_underscored(ascii_upper(name@)),
{
    let upper = to_ascii_upper(name);
    underscore_name_separators(upper.as_str())
}

} // verus!
