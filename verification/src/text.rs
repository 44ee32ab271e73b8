//! Text as sequences of characters: decimal numbers, comparison, and the views of lists.

use crate::list::{first_where, lemma_first_where};
use vstd::prelude::*;
use vstd::string::{StrSliceExecFns, StringExecFns};

verus! {

/// The model of a list of modelled values.
pub open spec fn views<T: View>(s: Seq<T>) -> Seq<T::V> {
    Seq::new(s.len(), |i: int| s[i]@)
}

/// The model of an optional borrowed text.
pub open spec fn str_option(s: Option<&str>) -> Option<Seq<char>> {
    match s {
        Some(t) => Some(t@),
        None => None,
    }
}

/// The model of an optional text.
pub open spec fn text_option(s: Option<String>) -> Option<Seq<char>> {
    match s {
        Some(t) => Some(t@),
        None => None,
    }
}

pub open spec fn is_digit(c: char) -> bool {
    '0' <= c && c <= '9'
}

pub open spec fn digit_value(c: char) -> nat {
    (c as nat - '0' as nat) as nat
}

pub open spec fn digit_char(d: nat) -> char {
    ('0' as nat + d) as char
}

/// The decimal form of a number, without leading zeros.
pub open spec fn decimal_text(n: nat) -> Seq<char>
    decreases n,
{
    if n < 10 {
        seq![digit_char(n)]
    } else {
        decimal_text(n / 10).push(digit_char(n % 10))
    }
}

pub open spec fn all_digits(s: Seq<char>) -> bool {
    forall|i: int| 0 <= i < s.len() ==> is_digit(#[trigger] s[i])
}

/// The number that a sequence of decimal digits denotes.
pub open spec fn digits_value(s: Seq<char>) -> nat
    decreases s.len(),
{
    if s.len() == 0 {
        0
    } else {
        digits_value(s.drop_last()) * 10 + digit_value(s.last())
    }
}

/// What is left of a number's text once an optional leading plus sign is taken off.
pub open spec fn unsigned_part(s: Seq<char>) -> Seq<char> {
    if s.len() > 0 && s[0] == '+' {
        s.drop_first()
    } else {
        s
    }
}

/// The `u32` that a text denotes: decimal digits, at least one, after an optional plus sign.
pub open spec fn parse_u32_text(s: Seq<char>) -> Option<u32> {
    let digits = unsigned_part(s);
    if digits.len() > 0 && all_digits(digits) && digits_value(digits) <= u32::MAX {
        Some(digits_value(digits) as u32)
    } else {
        None
    }
}

/// Reading a number's decimal form gives the number back.
pub proof fn law_decimal_round_trip(n: nat)
    ensures
        all_digits(decimal_text(n)),
        decimal_text(n).len() > 0,
        digits_value(decimal_text(n)) == n,
    decreases n,
{
    if n < 10 {
        let s = seq![digit_char(n)];
        assert(s.drop_last() =~= Seq::<char>::empty());
        assert(digits_value(s.drop_last()) == 0);
    } else {
        law_decimal_round_trip(n / 10);
        let s = decimal_text(n);
        assert(s.drop_last() =~= decimal_text(n / 10));
        assert(s.last() == digit_char(n % 10));
        assert forall|i: int| 0 <= i < s.len() implies is_digit(#[trigger] s[i]) by {
            if i < s.len() - 1 {
                assert(s[i] == decimal_text(n / 10)[i]);
            }
        }
    }
}

proof fn lemma_digits_prefix(s: Seq<char>, k: int)
    requires
        0 <= k <= s.len(),
    ensures
        digits_value(s.take(k)) <= digits_value(s),
    decreases s.len() - k,
{
    if k == s.len() {
        assert(s.take(k) =~= s);
    } else {
        assert(s.take(k + 1).drop_last() =~= s.take(k));
        lemma_digits_prefix(s, k + 1);
    }
}

fn digit_text(d: u64) -> (r: &'static str)
    requires
        d < 10,
    ensures
        r@ == seq![digit_char(d as nat)],
{
    proof {
        reveal_strlit("0");
        reveal_strlit("1");
        reveal_strlit("2");
        reveal_strlit("3");
        reveal_strlit("4");
        reveal_strlit("5");
        reveal_strlit("6");
        reveal_strlit("7");
        reveal_strlit("8");
        reveal_strlit("9");
    }
    let r = match d {
        0 => "0",
        1 => "1",
        2 => "2",
        3 => "3",
        4 => "4",
        5 => "5",
        6 => "6",
        7 => "7",
        8 => "8",
        _ => "9",
    };
    assert(r@ =~= seq![digit_char(d as nat)]);
    r
}

/// The decimal form of `n`.
pub fn decimal(n: u64) -> (r: String)
    ensures
        r@ == decimal_text(n as nat),
    decreases n,
{
    if n < 10 {
        digit_text(n).to_owned()
    } else {
        let mut r = decimal(n / 10);
        let ghost before = r@;
        r.append(digit_text(n % 10));
        assert(r@ =~= before.push(digit_char((n % 10) as nat)));
        r
    }
}

/// The characters of a text.
pub fn chars_of(s: &str) -> (r: Vec<char>)
    ensures
        r@ == s@,
{
    let mut out: Vec<char> = Vec::new();
    for c in it: s.chars()
        invariant
            it.seq() == s@,
            out@ =~= s@.take(it.index()),
    {
        out.push(c);
    }
    assert(s@.take(s@.len() as int) =~= s@);
    out
}

/// Whether two texts are the same.
pub fn same_text(a: &str, b: &str) -> (r: bool)
    ensures
        r == (a@ == b@),
{
    a.to_owned() == b.to_owned()
}

/// The `u32` that the characters of `v` from `from` on denote.
fn parse_u32_from(v: &Vec<char>, from: usize) -> (r: Option<u32>)
    requires
        from <= v@.len(),
    ensures
        r == parse_u32_text(v@.subrange(from as int, v@.len() as int)),
{
    let ghost s = v@.subrange(from as int, v@.len() as int);
    let start: usize = if from < v.len() && v[from] == '+' {
        from + 1
    } else {
        from
    };
    let ghost digits = unsigned_part(s);
    proof {
        assert(digits =~= v@.subrange(start as int, v@.len() as int));
    }
    if start >= v.len() {
        return None;
    }
    let mut value: u64 = 0;
    let mut i: usize = start;
    while i < v.len()
        invariant
            start <= i <= v@.len(),
            digits == v@.subrange(start as int, v@.len() as int),
            digits == unsigned_part(s),
            s == v@.subrange(from as int, v@.len() as int),
            all_digits(digits.take(i - start)),
            value == digits_value(digits.take(i - start)),
            value <= u32::MAX,
        decreases v@.len() - i,
    {
        let c: char = v[i];
        let ghost k = i - start;
        assert(digits[k] == c);
        assert(digits.take(k + 1).drop_last() =~= digits.take(k));
        assert(digits.take(k + 1).last() == c);
        if !('0' <= c && c <= '9') {
            assert(!is_digit(digits[k]));
            return None;
        }
        value = value * 10 + (c as u32 - '0' as u32) as u64;
        if value > 0xffff_ffff {
            proof {
                lemma_digits_prefix(digits, k + 1);
            }
            return None;
        }
        assert(all_digits(digits.take(k + 1))) by {
            assert forall|j: int| 0 <= j < k + 1 implies is_digit(
                #[trigger] digits.take(k + 1)[j],
            ) by {
                if j < k {
                    assert(digits.take(k + 1)[j] == digits.take(k)[j]);
                }
            }
        }
        i = i + 1;
    }
    assert(digits.take(digits.len() as int) =~= digits);
    Some(value as u32)
}

/// Position `i` holds the last slash of `s`.
pub open spec fn is_last_slash(s: Seq<char>, i: int) -> bool {
    &&& 0 <= i < s.len()
    &&& s[i] == '/'
    &&& forall|j: int| i < j < s.len() ==> #[trigger] s[j] != '/'
}

/// The session word and pane index that a pane id `"{word}/{index}"` names. The word is all
/// that stands before the last slash.
#[verifier::opaque]
pub open spec fn pane_id_parts(s: Seq<char>) -> Option<(Seq<char>, u32)> {
    if exists|i: int| is_last_slash(s, i) {
        let i = choose|i: int| is_last_slash(s, i);
        match parse_u32_text(s.subrange(i + 1, s.len() as int)) {
            Some(index) => Some((s.subrange(0, i), index)),
            None => None,
        }
    } else {
        None
    }
}

/// The pane id of the pane `index` of the session `word`.
pub open spec fn pane_id_text(word: Seq<char>, index: u32) -> Seq<char> {
    word + seq!['/'] + decimal_text(index as nat)
}

/// Parsing the id of a pane gives back its session word and index, whatever the word.
pub proof fn law_pane_id_round_trip(word: Seq<char>, index: u32)
    ensures
        pane_id_parts(pane_id_text(word, index)) == Some((word, index)),
{
    reveal(pane_id_parts);
    law_decimal_round_trip(index as nat);
    let d = decimal_text(index as nat);
    let s = pane_id_text(word, index);
    let at = word.len() as int;
    assert(s[at] == '/');
    assert forall|j: int| at < j < s.len() implies #[trigger] s[j] != '/' by {
        assert(s[j] == d[j - at - 1]);
        assert(is_digit(d[j - at - 1]));
    }
    assert(is_last_slash(s, at));
    let i = choose|i: int| is_last_slash(s, i);
    assert(i == at) by {
        if i < at {
            assert(s[at] != '/');
        } else if at < i {
            assert(s[i] != '/');
        }
    }
    assert(s.subrange(i + 1, s.len() as int) =~= d);
    assert(is_digit(d[0]));
    assert(unsigned_part(d) == d);
    assert(s.subrange(0, i) =~= word);
}

/// Parse a pane ID `"{word_id}/{pane_index}"` into its components.
pub fn parse_pane_id(pane_id: &str) -> (r: Option<(&str, u32)>)
    ensures
        match r {
            Some((word, index)) => pane_id_parts(pane_id@) == Some((word@, index)),
            None => pane_id_parts(pane_id@) is None,
        },
{
    proof {
        reveal(pane_id_parts);
    }
    let chars = chars_of(pane_id);
    let ghost s = pane_id@;
    let mut i: usize = chars.len();
    while i > 0
        invariant
            0 <= i <= chars@.len(),
            chars@ == s,
            s == pane_id@,
            forall|j: int| i <= j < s.len() ==> #[trigger] s[j] != '/',
        decreases i,
    {
        i = i - 1;
        if chars[i] == '/' {
            proof {
                reveal(pane_id_parts);
                assert(is_last_slash(s, i as int));
                let w = choose|i: int| is_last_slash(s, i);
                assert(w == i);
            }
            return match parse_u32_from(&chars, i + 1) {
                Some(index) => Some((pane_id.substring_char(0, i), index)),
                None => None,
            };
        }
    }
    None
}

/// The pane id of the pane `index` of the session `word`.
pub fn format_pane_id(word: &str, index: u32) -> (r: String)
    ensures
        r@ == pane_id_text(word@, index),
{
    let mut r = word.to_owned();
    r.append("/");
    let d = decimal(index as u64);
    r.append(d.as_str());
    proof {
        reveal_strlit("/");
        assert("/"@ =~= seq!['/']);
    }
    r
}

/// Whether a text stands before another in dictionary order.
pub open spec fn text_less(a: Seq<char>, b: Seq<char>) -> bool
    decreases a.len(),
{
    if b.len() == 0 {
        false
    } else if a.len() == 0 {
        true
    } else if a[0] != b[0] {
        a[0] < b[0]
    } else {
        text_less(a.drop_first(), b.drop_first())
    }
}

/// Dictionary order is transitive, and no text stands before itself.
pub proof fn lemma_text_order(a: Seq<char>, b: Seq<char>, c: Seq<char>)
    ensures
        text_less(a, b) && text_less(b, c) ==> text_less(a, c),
        !text_less(a, a),
    decreases a.len(),
{
    if a.len() > 0 {
        lemma_text_order(a.drop_first(), b.drop_first(), c.drop_first());
    }
}

/// Whether a text stands before another in dictionary order.
pub fn text_before(a: &str, b: &str) -> (r: bool)
    ensures
        r == text_less(a@, b@),
{
    let x = chars_of(a);
    let y = chars_of(b);
    let mut i: usize = 0;
    assert(x@.skip(0) =~= x@);
    assert(y@.skip(0) =~= y@);
    while i < x.len() && i < y.len() && x[i] == y[i]
        invariant
            0 <= i <= x@.len(),
            i <= y@.len(),
            text_less(x@, y@) == text_less(x@.skip(i as int), y@.skip(i as int)),
        decreases x@.len() - i,
    {
        assert(x@.skip(i as int).drop_first() =~= x@.skip(i + 1));
        assert(y@.skip(i as int).drop_first() =~= y@.skip(i + 1));
        i = i + 1;
    }
    if i == y.len() {
        false
    } else if i == x.len() {
        true
    } else {
        x[i] < y[i]
    }
}

/// What `str::to_lowercase` makes of a text.
pub uninterp spec fn lowercase_text(s: Seq<char>) -> Seq<char>;

/// The text in lower case, by `str::to_lowercase`: each character is mapped by the Unicode
/// tables, which are not spelled out here.
#[verifier::external_body]
pub(crate) fn lowercase(s: &str) -> (r: String)
    ensures
        r@ == lowercase_text(s@),
{
    s.to_lowercase()
}

/// Whether a text has no characters.
pub fn is_empty_text(s: &str) -> (r: bool)
    ensures
        r == (s@.len() == 0),
{
    proof {
        reveal_strlit("");
        assert(s@.len() == 0 ==> s@ =~= ""@);
    }
    same_text(s, "")
}

/// A copy of a list of texts.
pub fn copy_texts(texts: &Vec<String>) -> (r: Vec<String>)
    ensures
        views(r@) == views(texts@),
{
    let mut out: Vec<String> = Vec::new();
    let mut i: usize = 0;
    while i < texts.len()
        invariant
            0 <= i <= texts@.len(),
            out@.len() == i,
            forall|j: int| 0 <= j < i ==> (#[trigger] out@[j])@ == texts@[j]@,
        decreases texts@.len() - i,
    {
        out.push(texts[i].clone());
        i = i + 1;
    }
    assert(views(out@) =~= views(texts@));
    out
}

// ─── Lists of texts ──────────────────────────────────────────────────────────

/// Recognizes a text.
pub open spec fn is_text(t: Seq<char>) -> spec_fn(Seq<char>) -> bool {
    |s: Seq<char>| s == t
}

/// A list without the first occurrence of a text.
pub open spec fn without_text(list: Seq<Seq<char>>, t: Seq<char>) -> Seq<Seq<char>> {
    match first_where(list, is_text(t)) {
        Some(i) => list.remove(i),
        None => list,
    }
}

/// A list with a text in it.
pub open spec fn with_text(list: Seq<Seq<char>>, t: Seq<char>) -> Seq<Seq<char>> {
    if list.contains(t) {
        list
    } else {
        list.push(t)
    }
}

/// A text is found exactly if it is there.
pub proof fn lemma_is_text(list: Seq<Seq<char>>, t: Seq<char>)
    ensures
        list.contains(t) <==> first_where(list, is_text(t)) is Some,
{
    lemma_first_where(list, is_text(t));
    if list.contains(t) {
        let i = choose|i: int| 0 <= i < list.len() && list[i] == t;
        assert(is_text(t)(list[i]));
    }
    if let Some(i) = first_where(list, is_text(t)) {
        assert(list[i] == t);
    }
}

/// Taking a text out, or putting one in, keeps a list free of repetitions.
pub proof fn lemma_texts_distinct(list: Seq<Seq<char>>, t: Seq<char>)
    requires
        list.no_duplicates(),
    ensures
        without_text(list, t).no_duplicates(),
        !without_text(list, t).contains(t),
        with_text(list, t).no_duplicates(),
        with_text(list, t).contains(t),
{
    lemma_is_text(list, t);
    lemma_first_where(list, is_text(t));
    let r = without_text(list, t);
    if let Some(i) = first_where(list, is_text(t)) {
        assert forall|a: int, b: int| 0 <= a < r.len() && 0 <= b < r.len() && a != b implies r[a]
            != r[b] by {
            let x = if a < i {
                a
            } else {
                a + 1
            };
            let y = if b < i {
                b
            } else {
                b + 1
            };
            assert(list[x] != list[y]);
        }
        assert forall|a: int| 0 <= a < r.len() implies r[a] != t by {
            let x = if a < i {
                a
            } else {
                a + 1
            };
            assert(list[x] != list[i]);
        }
    }
    if !list.contains(t) {
        let w = with_text(list, t);
        assert(w[list.len() as int] == t);
        assert forall|a: int, b: int| 0 <= a < w.len() && 0 <= b < w.len() && a != b implies w[a]
            != w[b] by {
            if a < list.len() && b < list.len() {
                assert(list[a] != list[b]);
            }
        }
    }
}

/// Taking a text out of a list takes out that text alone, and putting one in adds that text alone,
/// at the end; the others keep their order.
pub proof fn lemma_without_text(list: Seq<Seq<char>>, t: Seq<char>)
    requires
        list.no_duplicates(),
    ensures
        forall|q: Seq<char>| #[trigger]
            without_text(list, t).contains(q) <==> list.contains(q) && q != t,
        forall|q: Seq<char>| #[trigger]
            with_text(list, t).contains(q) <==> list.contains(q) || q == t,
        list.contains(t) ==> with_text(list, t) == list && exists|k: int|
            0 <= k < list.len() && #[trigger] list[k] == t && without_text(list, t) == list.remove(
                k,
            ),
        !list.contains(t) ==> without_text(list, t) == list && with_text(list, t) == list.push(t),
{
    lemma_is_text(list, t);
    lemma_first_where(list, is_text(t));
    lemma_texts_distinct(list, t);
    let r = without_text(list, t);
    assert forall|q: Seq<char>| #[trigger] r.contains(q) <==> list.contains(q) && q != t by {
        if let Some(i) = first_where(list, is_text(t)) {
            if r.contains(q) {
                let k = choose|k: int| 0 <= k < r.len() && r[k] == q;
                assert(list[if k < i {
                    k
                } else {
                    k + 1
                }] == q);
            }
            if list.contains(q) && q != t {
                let k = choose|k: int| 0 <= k < list.len() && list[k] == q;
                assert(list[i] == t);
                assert(r[if k < i {
                    k
                } else {
                    k - 1
                }] == q);
            }
        }
    }
    assert forall|q: Seq<char>| #[trigger]
        with_text(list, t).contains(q) <==> list.contains(q) || q == t by {
        if !list.contains(t) {
            let w = list.push(t);
            assert(w[list.len() as int] == t);
            if list.contains(q) {
                let k = choose|k: int| 0 <= k < list.len() && list[k] == q;
                assert(w[k] == q);
            }
        }
    }
}

/// The order of a dictionary: two texts differ first in a place, and the smaller character there
/// decides; where one is the start of the other, the shorter stands before.
pub proof fn law_dictionary_order(common: Seq<char>, a: Seq<char>, b: Seq<char>)
    ensures
        text_less(common + a, common + b) == text_less(a, b),
        a.len() > 0 && b.len() > 0 && a[0] != b[0] ==> text_less(a, b) == (a[0] < b[0]),
        a.len() == 0 ==> text_less(a, b) == (b.len() > 0),
        b.len() == 0 ==> !text_less(a, b),
    decreases common.len(),
{
    if common.len() > 0 {
        law_dictionary_order(common.drop_first(), a, b);
        assert((common + a).drop_first() =~= common.drop_first() + a);
        assert((common + b).drop_first() =~= common.drop_first() + b);
    } else {
        assert(common + a =~= a);
        assert(common + b =~= b);
    }
}

/// What is read as a number: the digits of one that fits, after a plus sign or none, are read as
/// it; nothing is read from no digits at all, nor from a text with anything else in it.
pub proof fn law_numbers_are_read_back(n: u32, s: Seq<char>)
    ensures
        parse_u32_text(decimal_text(n as nat)) == Some(n),
        parse_u32_text(seq!['+'] + decimal_text(n as nat)) == Some(n),
        s.len() == 0 ==> parse_u32_text(s) is None,
        s == seq!['+'] ==> parse_u32_text(s) is None,
        (exists|i: int| 1 <= i < s.len() && !('0' <= #[trigger] s[i] <= '9')) ==> parse_u32_text(
            s,
        ) is None,
        s.len() > 0 && s[0] != '+' && !('0' <= s[0] <= '9') ==> parse_u32_text(s) is None,
        parse_u32_text(s) is Some && s[0] != '+' ==> digits_value(s) == parse_u32_text(s)->0,
{
    let d = decimal_text(n as nat);
    law_decimal_round_trip(n as nat);
    assert(is_digit(d[0]));
    assert(unsigned_part(d) == d);
    let signed = seq!['+'] + d;
    assert(unsigned_part(signed) =~= d);
    if exists|i: int| 1 <= i < s.len() && !('0' <= #[trigger] s[i] <= '9') {
        let i = choose|i: int| 1 <= i < s.len() && !('0' <= #[trigger] s[i] <= '9');
        let u = unsigned_part(s);
        if s[0] == '+' {
            assert(u[i - 1] == s[i]);
            assert(!is_digit(u[i - 1]));
        } else {
            assert(!is_digit(u[i]));
        }
    }
    if s.len() > 0 && s[0] != '+' && !('0' <= s[0] <= '9') {
        assert(!is_digit(unsigned_part(s)[0]));
    }
}

} // verus!
