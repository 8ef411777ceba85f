//! Character-level string helpers: the char view of a string, stripping
//! leading namespace separators, ASCII case-insensitive equality, and the
//! lexicographic order that `str` comparison follows.
use vstd::prelude::*;

verus! {

/// The namespace separator that leads a fully-qualified name such as `\App\Animal`.
pub open spec fn is_separator(c: char) -> bool {
    c == '\\'
}

/// `s` with every leading backslash removed (what `str::trim_start_matches('\\')` gives).
pub open spec fn trim_separators(s: Seq<char>) -> Seq<char>
    decreases s.len(),
{
    if s.len() > 0 && is_separator(s[0]) {
        trim_separators(s.drop_first())
    } else {
        s
    }
}

/// The code of `c` with ASCII upper-case letters mapped to lower case;
/// every other char keeps its code.
pub open spec fn fold_ascii_case(c: char) -> u32 {
    let u = c as u32;
    if 65 <= u && u <= 90 {
        (u + 32) as u32
    } else {
        u
    }
}

/// Two strings are equal when ASCII letters are compared without regard to
/// case (what `str::eq_ignore_ascii_case` decides: non-ASCII chars must match exactly).
pub open spec fn eq_ignore_ascii_case(a: Seq<char>, b: Seq<char>) -> bool {
    &&& a.len() == b.len()
    &&& forall|i: int| 0 <= i < a.len() ==> #[trigger] fold_ascii_case(a[i]) == fold_ascii_case(b[i])
}

/// Strict lexicographic order on strings by the chars' code points, which is
/// the order in which Rust compares `str` values (UTF-8 preserves code point order).
pub open spec fn chars_lt(a: Seq<char>, b: Seq<char>) -> bool
    decreases a.len(),
{
    if b.len() == 0 {
        false
    } else if a.len() == 0 {
        true
    } else if a[0] != b[0] {
        (a[0] as u32) < (b[0] as u32)
    } else {
        chars_lt(a.drop_first(), b.drop_first())
    }
}

pub proof fn lemma_chars_lt_irreflexive(a: Seq<char>)
    ensures
        !chars_lt(a, a),
    decreases a.len(),
{
    if a.len() > 0 {
        lemma_chars_lt_irreflexive(a.drop_first());
    }
}

pub proof fn lemma_chars_lt_transitive(a: Seq<char>, b: Seq<char>, c: Seq<char>)
    requires
        chars_lt(a, b),
        chars_lt(b, c),
    ensures
        chars_lt(a, c),
    decreases a.len(),
{
    if a.len() > 0 && b.len() > 0 && c.len() > 0 {
        if a[0] == b[0] && b[0] == c[0] {
            lemma_chars_lt_transitive(a.drop_first(), b.drop_first(), c.drop_first());
        }
    }
}

pub proof fn lemma_chars_lt_total(a: Seq<char>, b: Seq<char>)
    ensures
        a == b || chars_lt(a, b) || chars_lt(b, a),
    decreases a.len(),
{
    if a.len() > 0 && b.len() > 0 {
        if a[0] == b[0] {
            lemma_chars_lt_total(a.drop_first(), b.drop_first());
            if a.drop_first() == b.drop_first() {
                assert(a =~= seq![a[0]] + a.drop_first());
                assert(b =~= seq![b[0]] + b.drop_first());
            }
        } else {
            lemma_char_code_injective(a[0], b[0]);
        }
    } else if a.len() == 0 && b.len() == 0 {
        assert(a =~= b);
    }
}

pub proof fn lemma_chars_lt_asymmetric(a: Seq<char>, b: Seq<char>)
    requires
        chars_lt(a, b),
    ensures
        !chars_lt(b, a),
{
    if chars_lt(b, a) {
        lemma_chars_lt_transitive(a, b, a);
        lemma_chars_lt_irreflexive(a);
    }
}

/// Distinct chars have distinct codes.
proof fn lemma_char_code_injective(a: char, b: char)
    requires
        a != b,
    ensures
        (a as u32) != (b as u32),
{
    vstd::utf8::char_u32_cast(a, a as u32);
    vstd::utf8::char_u32_cast(b, b as u32);
}

/// Once the first `i` chars agree, the order is decided by what follows them.
proof fn lemma_chars_lt_skip(a: Seq<char>, b: Seq<char>, i: int)
    requires
        0 <= i <= a.len(),
        i <= b.len(),
        a.take(i) == b.take(i),
    ensures
        chars_lt(a, b) == chars_lt(a.skip(i), b.skip(i)),
    decreases i,
{
    if i > 0 {
        assert(a[0] == a.take(i)[0]);
        assert(b[0] == b.take(i)[0]);
        assert(a.drop_first().take(i - 1) =~= a.take(i).drop_first());
        assert(b.drop_first().take(i - 1) =~= b.take(i).drop_first());
        lemma_chars_lt_skip(a.drop_first(), b.drop_first(), i - 1);
        assert(a.drop_first().skip(i - 1) =~= a.skip(i));
        assert(b.drop_first().skip(i - 1) =~= b.skip(i));
    } else {
        assert(a.skip(0) =~= a);
        assert(b.skip(0) =~= b);
    }
}

/// How one value stands to another in an order.
#[derive(Clone, Copy, Debug, PartialEq, Eq)]
pub enum Rank {
    Less,
    Equal,
    Greater,
}

/// The chars of `s`, in order.
pub fn string_chars(s: &str) -> (v: Vec<char>)
    ensures
        v@ == s@,
{
    let mut v: Vec<char> = Vec::new();
    for c in it: s.chars()
        invariant
            v@ == it.seq().take(it.index() as int),
    {
        v.push(c);
    }
    v
}

/// Appends one char to a string (`String::push`).
#[verifier::external_body]
fn push_char(s: &mut String, c: char)
    ensures
        final(s)@ == old(s)@.push(c),
{
    s.push(c);
}

/// The string whose chars are `chars[from..]`.
fn string_from_chars(chars: &Vec<char>, from: usize) -> (s: String)
    requires
        from <= chars.len(),
    ensures
        s@ == chars@.skip(from as int),
{
    let mut s = String::new();
    let mut i = from;
    while i < chars.len()
        invariant
            from <= i <= chars.len(),
            s@ == chars@.subrange(from as int, i as int),
        decreases chars.len() - i,
    {
        push_char(&mut s, chars[i]);
        assert(chars@.subrange(from as int, i + 1) =~= chars@.subrange(from as int, i as int).push(
            chars@[i as int],
        ));
        i = i + 1;
    }
    assert(chars@.subrange(from as int, chars.len() as int) =~= chars@.skip(from as int));
    s
}

/// Number of leading separators of `v`, and the proof that skipping them trims.
fn count_leading_separators(v: &Vec<char>) -> (k: usize)
    ensures
        k <= v.len(),
        v@.skip(k as int) == trim_separators(v@),
{
    let mut k: usize = 0;
    assert(v@.skip(0) =~= v@);
    while k < v.len() && v[k] == '\\'
        invariant
            k <= v.len(),
            trim_separators(v@.skip(k as int)) == trim_separators(v@),
        decreases v.len() - k,
    {
        assert(v@.skip(k as int).drop_first() =~= v@.skip(k + 1));
        k = k + 1;
    }
    assert(v@.skip(k as int).len() == 0 || !is_separator(v@.skip(k as int)[0]));
    k
}

/// `s` with its leading backslashes removed.
pub fn trim_leading_separators(s: &str) -> (t: String)
    ensures
        t@ == trim_separators(s@),
{
    let chars = string_chars(s);
    let k = count_leading_separators(&chars);
    string_from_chars(&chars, k)
}

/// `c` with an ASCII upper-case letter mapped to lower case, as a code.
fn fold_case(c: char) -> (r: u32)
    ensures
        r == fold_ascii_case(c),
{
    let u = c as u32;
    if 65 <= u && u <= 90 {
        u + 32
    } else {
        u
    }
}

/// Whether `a` and `b` are equal up to ASCII case.
pub fn chars_eq_ignore_ascii_case(a: &Vec<char>, b: &Vec<char>) -> (r: bool)
    ensures
        r == eq_ignore_ascii_case(a@, b@),
{
    if a.len() != b.len() {
        return false;
    }
    let mut i: usize = 0;
    while i < a.len()
        invariant
            a.len() == b.len(),
            i <= a.len(),
            forall|j: int| 0 <= j < i ==> #[trigger] fold_ascii_case(a@[j]) == fold_ascii_case(b@[j]),
        decreases a.len() - i,
    {
        if fold_case(a[i]) != fold_case(b[i]) {
            assert(!(fold_ascii_case(a@[i as int]) == fold_ascii_case(b@[i as int])));
            return false;
        }
        i = i + 1;
    }
    true
}

/// Where `a` stands to `b` in the order of `chars_lt`.
pub fn rank_chars(a: &Vec<char>, b: &Vec<char>) -> (r: Rank)
    ensures
        r == Rank::Less <==> chars_lt(a@, b@),
        r == Rank::Equal <==> a@ == b@,
        r == Rank::Greater <==> chars_lt(b@, a@),
{
    proof {
        assert(a@.take(0) =~= b@.take(0));
        lemma_chars_lt_skip(a@, b@, 0);
        lemma_chars_lt_skip(b@, a@, 0);
        lemma_chars_lt_irreflexive(a@);
        lemma_chars_lt_total(a@, b@);
        if chars_lt(a@, b@) {
            lemma_chars_lt_asymmetric(a@, b@);
        }
    }
    let mut i: usize = 0;
    while i < a.len() && i < b.len()
        invariant
            i <= a.len(),
            i <= b.len(),
            a@.take(i as int) == b@.take(i as int),
        decreases a.len() - i,
    {
        if a[i] != b[i] {
            proof {
                lemma_chars_lt_skip(a@, b@, i as int);
                lemma_chars_lt_skip(b@, a@, i as int);
                assert(a@.skip(i as int)[0] == a@[i as int]);
                assert(b@.skip(i as int)[0] == b@[i as int]);
                lemma_char_code_injective(a@[i as int], b@[i as int]);
                assert(a@ != b@);
            }
            if (a[i] as u32) < (b[i] as u32) {
                return Rank::Less;
            } else {
                return Rank::Greater;
            }
        }
        assert(a@.take(i + 1) =~= a@.take(i as int).push(a@[i as int]));
        assert(b@.take(i + 1) =~= b@.take(i as int).push(b@[i as int]));
        i = i + 1;
    }
    proof {
        lemma_chars_lt_skip(a@, b@, i as int);
        lemma_chars_lt_skip(b@, a@, i as int);
    }
    if a.len() == b.len() {
        assert(a@ =~= a@.take(i as int));
        assert(b@ =~= b@.take(i as int));
        Rank::Equal
    } else if a.len() < b.len() {
        assert(a@ != b@);
        Rank::Less
    } else {
        assert(a@ != b@);
        Rank::Greater
    }
}

/// Trimming is idempotent, and what it leaves does not start with a separator.
pub proof fn lemma_trim_separators_idempotent(s: Seq<char>)
    ensures
        trim_separators(trim_separators(s)) == trim_separators(s),
        trim_separators(s).len() == 0 || !is_separator(trim_separators(s)[0]),
        trim_separators(s).len() <= s.len(),
    decreases s.len(),
{
    if s.len() > 0 && is_separator(s[0]) {
        lemma_trim_separators_idempotent(s.drop_first());
    }
}

/// Equality up to ASCII case is an equivalence relation.
pub proof fn lemma_eq_ignore_ascii_case_equivalence(a: Seq<char>, b: Seq<char>, c: Seq<char>)
    ensures
        eq_ignore_ascii_case(a, a),
        eq_ignore_ascii_case(a, b) == eq_ignore_ascii_case(b, a),
        eq_ignore_ascii_case(a, b) && eq_ignore_ascii_case(b, c) ==> eq_ignore_ascii_case(a, c),
{
    if eq_ignore_ascii_case(a, b) && eq_ignore_ascii_case(b, c) {
        assert forall|i: int| 0 <= i < a.len() implies #[trigger] fold_ascii_case(a[i])
            == fold_ascii_case(c[i]) by {
            assert(fold_ascii_case(a[i]) == fold_ascii_case(b[i]));
            assert(fold_ascii_case(b[i]) == fold_ascii_case(c[i]));
        }
    }
    if eq_ignore_ascii_case(b, a) {
        assert forall|i: int| 0 <= i < a.len() implies #[trigger] fold_ascii_case(a[i])
            == fold_ascii_case(b[i]) by {
            assert(fold_ascii_case(b[i]) == fold_ascii_case(a[i]));
        }
    }
}

/// Folding changes only ASCII upper-case letters, each to the code of its
/// lower-case letter; every other char keeps its own code.
pub proof fn lemma_fold_ascii_case_codes(c: char)
    ensures
        65 <= (c as u32) <= 90 ==> fold_ascii_case(c) == (c as u32) + 32,
        !(65 <= (c as u32) <= 90) ==> fold_ascii_case(c) == (c as u32),
{
}

/// Two strings are equal up to ASCII case exactly when they have the same
/// length and, position by position, the chars are equal or are the upper-
/// and lower-case forms of one ASCII letter. Digits, separators and
/// non-ASCII chars must match exactly.
pub proof fn lemma_eq_ignore_ascii_case_chars(a: Seq<char>, b: Seq<char>)
    ensures
        eq_ignore_ascii_case(a, b) <==> (a.len() == b.len() && forall|i: int|
            0 <= i < a.len() ==> {
                ||| a[i] == #[trigger] b[i]
                ||| 65 <= (a[i] as u32) <= 90 && (b[i] as u32) == (a[i] as u32) + 32
                ||| 65 <= (b[i] as u32) <= 90 && (a[i] as u32) == (b[i] as u32) + 32
            }),
{
    if eq_ignore_ascii_case(a, b) {
        assert forall|i: int| 0 <= i < a.len() implies {
            ||| a[i] == #[trigger] b[i]
            ||| 65 <= (a[i] as u32) <= 90 && (b[i] as u32) == (a[i] as u32) + 32
            ||| 65 <= (b[i] as u32) <= 90 && (a[i] as u32) == (b[i] as u32) + 32
        } by {
            assert(fold_ascii_case(a[i]) == fold_ascii_case(b[i]));
            if a[i] != b[i] {
                lemma_char_code_injective(a[i], b[i]);
            }
        }
    }
    if a.len() == b.len() && forall|i: int|
        0 <= i < a.len() ==> {
            ||| a[i] == #[trigger] b[i]
            ||| 65 <= (a[i] as u32) <= 90 && (b[i] as u32) == (a[i] as u32) + 32
            ||| 65 <= (b[i] as u32) <= 90 && (a[i] as u32) == (b[i] as u32) + 32
        } {
        assert forall|i: int| 0 <= i < a.len() implies #[trigger] fold_ascii_case(a[i]) == fold_ascii_case(b[i]) by {
            assert(a[i] == b[i] || 65 <= (a[i] as u32) <= 90 && (b[i] as u32) == (a[i] as u32) + 32
                || 65 <= (b[i] as u32) <= 90 && (a[i] as u32) == (b[i] as u32) + 32);
        }
    }
}

/// Trimming removes exactly the leading backslashes: the result is what
/// follows the first char that is not a backslash (or nothing, when all are).
pub proof fn lemma_trim_separators_removes_leading(s: Seq<char>)
    ensures
        exists|k: int|
            #![trigger s.skip(k)]
            {
                &&& 0 <= k <= s.len()
                &&& trim_separators(s) == s.skip(k)
                &&& forall|j: int| 0 <= j < k ==> s[j] == '\\'
                &&& (k == s.len() || s[k] != '\\')
            },
    decreases s.len(),
{
    if s.len() > 0 && s[0] == '\\' {
        lemma_trim_separators_removes_leading(s.drop_first());
        let t = s.drop_first();
        let k = choose|k: int|
            #![trigger t.skip(k)]
            {
                &&& 0 <= k <= t.len()
                &&& trim_separators(t) == t.skip(k)
                &&& forall|j: int| 0 <= j < k ==> t[j] == '\\'
                &&& (k == t.len() || t[k] != '\\')
            };
        assert(0 <= k <= t.len());
        assert(trim_separators(t) == t.skip(k));
        assert(t.len() == s.len() - 1);
        assert forall|i: int| 0 <= i < t.len() implies #[trigger] t[i] == s[i + 1] by {}
        assert forall|i: int| 0 <= i < t.skip(k).len() implies #[trigger] t.skip(k)[i] == s.skip(k + 1)[i] by {
            assert(t[k + i] == s[k + 1 + i]);
        }
        assert(t.skip(k) =~= s.skip(k + 1));
        assert forall|j: int| 0 <= j < k + 1 implies s[j] == '\\' by {
            if j > 0 {
                assert(t[j - 1] == s[j]);
            }
        }
        assert(k + 1 == s.len() || s[k + 1] == t[k]);
    } else {
        assert(s.skip(0) =~= s);
    }
}

/// The strict order on strings is lexicographic by char code: `a` comes
/// before `b` exactly when, after their longest common prefix, `a` ends
/// while `b` goes on, or `a`'s next char has the smaller code.
pub proof fn lemma_chars_lt_lexicographic(a: Seq<char>, b: Seq<char>)
    ensures
        chars_lt(a, b) <==> exists|k: int|
            #![trigger a.take(k), b.take(k)]
            {
                &&& 0 <= k <= a.len()
                &&& k <= b.len()
                &&& a.take(k) == b.take(k)
                &&& {
                    ||| k == a.len() && k < b.len()
                    ||| k < a.len() && k < b.len() && (a[k] as u32) < (b[k] as u32)
                }
            },
    decreases a.len(),
{
    if a.len() > 0 && b.len() > 0 && a[0] == b[0] {
        let a1 = a.drop_first();
        let b1 = b.drop_first();
        lemma_chars_lt_lexicographic(a1, b1);
        if chars_lt(a, b) {
            let k = choose|k: int|
                #![trigger a1.take(k), b1.take(k)]
                {
                    &&& 0 <= k <= a1.len()
                    &&& k <= b1.len()
                    &&& a1.take(k) == b1.take(k)
                    &&& {
                        ||| k == a1.len() && k < b1.len()
                        ||| k < a1.len() && k < b1.len() && (a1[k] as u32) < (b1[k] as u32)
                    }
                };
            assert(a.take(k + 1) =~= seq![a[0]] + a1.take(k));
            assert(b.take(k + 1) =~= seq![b[0]] + b1.take(k));
            assert(k + 1 < a.len() ==> a[k + 1] == a1[k]);
            assert(k + 1 < b.len() ==> b[k + 1] == b1[k]);
        }
        if exists|k: int|
            #![trigger a.take(k), b.take(k)]
            {
                &&& 0 <= k <= a.len()
                &&& k <= b.len()
                &&& a.take(k) == b.take(k)
                &&& {
                    ||| k == a.len() && k < b.len()
                    ||| k < a.len() && k < b.len() && (a[k] as u32) < (b[k] as u32)
                }
            } {
            let k = choose|k: int|
                #![trigger a.take(k), b.take(k)]
                {
                    &&& 0 <= k <= a.len()
                    &&& k <= b.len()
                    &&& a.take(k) == b.take(k)
                    &&& {
                        ||| k == a.len() && k < b.len()
                        ||| k < a.len() && k < b.len() && (a[k] as u32) < (b[k] as u32)
                    }
                };
            if k == 0 {
                lemma_char_code_injective(a[0], b[0]);
            } else {
                assert(a1.take(k - 1) =~= a.take(k).drop_first());
                assert(b1.take(k - 1) =~= b.take(k).drop_first());
                assert(k - 1 < a1.len() ==> a1[k - 1] == a[k]);
                assert(k - 1 < b1.len() ==> b1[k - 1] == b[k]);
            }
        }
    } else if a.len() > 0 && b.len() > 0 {
        lemma_char_code_injective(a[0], b[0]);
        assert(a.take(0) =~= b.take(0));
        if exists|k: int|
            #![trigger a.take(k), b.take(k)]
            {
                &&& 0 <= k <= a.len()
                &&& k <= b.len()
                &&& a.take(k) == b.take(k)
                &&& {
                    ||| k == a.len() && k < b.len()
                    ||| k < a.len() && k < b.len() && (a[k] as u32) < (b[k] as u32)
                }
            } {
            let k = choose|k: int|
                #![trigger a.take(k), b.take(k)]
                {
                    &&& 0 <= k <= a.len()
                    &&& k <= b.len()
                    &&& a.take(k) == b.take(k)
                    &&& {
                        ||| k == a.len() && k < b.len()
                        ||| k < a.len() && k < b.len() && (a[k] as u32) < (b[k] as u32)
                    }
                };
            if k > 0 {
                assert(a.take(k)[0] == b.take(k)[0]);
            }
        }
    } else {
        assert(a.take(0) =~= b.take(0));
    }
}

} // verus!
