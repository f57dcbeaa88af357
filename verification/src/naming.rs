//! Deriving garden file names: a filesystem-safe slug from a title, a
//! sortable fixed-width name from a creation timestamp, and deterministic
//! collision resolution.
//!
//! Names are byte strings (`Vec<u8>`); every byte a name can hold is
//! printable ASCII, so callers may treat them as UTF-8 text.

use vstd::prelude::*;

use crate::time::Timestamp;

verus! {

/// Separator byte used in names: ASCII '-'.
pub const SEPARATOR: u8 = 45;

/// Longest slug kept from a title, in bytes, before a trailing separator
/// is dropped.
pub const SLUG_MAX: usize = 50;

/// Lower-cases an ASCII letter; every other byte passes through unchanged.
pub open spec fn lower(b: u8) -> u8 {
    if 65 <= b && b <= 90 {
        (b + 32) as u8
    } else {
        b
    }
}

/// Bytes a slug keeps: lower-case ASCII letters and ASCII digits.
pub open spec fn keeps(b: u8) -> bool {
    (97 <= b && b <= 122) || (48 <= b && b <= 57)
}

/// Bytes that may appear in any derived name: kept bytes and the separator.
pub open spec fn safe_byte(b: u8) -> bool {
    keeps(b) || b == SEPARATOR
}

/// One step of slug building: a keepable byte is appended lower-cased; any
/// other byte becomes a single separator, never doubled and never leading.
pub open spec fn slug_step(acc: Seq<u8>, b: u8) -> Seq<u8> {
    if keeps(lower(b)) {
        acc.push(lower(b))
    } else if acc.len() > 0 && acc.last() != SEPARATOR {
        acc.push(SEPARATOR)
    } else {
        acc
    }
}

/// The slug body built from a whole title, before truncation.
pub open spec fn slug_core(s: Seq<u8>) -> Seq<u8>
    decreases s.len(),
{
    if s.len() == 0 {
        Seq::empty()
    } else {
        slug_step(slug_core(s.drop_last()), s.last())
    }
}

/// Drops a single trailing separator, if one is there.
pub open spec fn trim_trailing_separator(s: Seq<u8>) -> Seq<u8> {
    if s.len() > 0 && s.last() == SEPARATOR {
        s.drop_last()
    } else {
        s
    }
}

/// The slug of a title: build the body, cut it to `SLUG_MAX` bytes, drop a
/// trailing separator.
pub open spec fn slug_of(s: Seq<u8>) -> Seq<u8> {
    if slug_core(s).len() > SLUG_MAX {
        trim_trailing_separator(slug_core(s).take(SLUG_MAX as int))
    } else {
        trim_trailing_separator(slug_core(s))
    }
}

/// Builds the slug of `title`, exactly as `slug_of` states it.
pub fn slugify(title: &Vec<u8>) -> (r: Vec<u8>)
    ensures
        r@ == slug_of(title@),
{
    let mut out: Vec<u8> = Vec::new();
    let mut i: usize = 0;
    while i < title.len()
        invariant
            i <= title.len(),
            out@ == slug_core(title@.take(i as int)),
            out@.len() <= i,
        decreases title.len() - i,
    {
        let b = title[i];
        let lowered = if 65 <= b && b <= 90 {
            b + 32
        } else {
            b
        };
        if (97 <= lowered && lowered <= 122) || (48 <= lowered && lowered <= 57) {
            out.push(lowered);
        } else if out.len() > 0 && out[out.len() - 1] != SEPARATOR {
            out.push(SEPARATOR);
        }
        proof {
            assert(title@.take(i + 1).drop_last() =~= title@.take(i as int));
            assert(title@.take(i + 1).last() == title@[i as int]);
        }
        i = i + 1;
    }
    proof {
        assert(title@.take(title@.len() as int) =~= title@);
    }
    if out.len() > SLUG_MAX {
        out.truncate(SLUG_MAX);
    }
    if out.len() > 0 && out[out.len() - 1] == SEPARATOR {
        out.pop();
    }
    out
}

/// A slug never exceeds `SLUG_MAX` bytes, however long the title.
pub proof fn lemma_slug_bounded(s: Seq<u8>)
    ensures
        slug_of(s).len() <= SLUG_MAX,
{
}

/// Every byte of a slug is filesystem-safe: a lower-case ASCII letter, an
/// ASCII digit, or the separator.
pub proof fn lemma_slug_safe(s: Seq<u8>)
    ensures
        forall|i: int| 0 <= i < slug_of(s).len() ==> safe_byte(#[trigger] slug_of(s)[i]),
{
    lemma_slug_core_safe(s);
}

/// The decimal digit byte for `n`, for `0 <= n <= 9`.
pub open spec fn digit(n: int) -> u8
    recommends
        0 <= n <= 9,
{
    (48 + n) as u8
}

/// `n` rendered as exactly two decimal digits, zero-padded.
pub open spec fn pad2(n: int) -> Seq<u8> {
    seq![digit(n / 10), digit(n % 10)]
}

/// `n` rendered as exactly four decimal digits, zero-padded.
pub open spec fn pad4(n: int) -> Seq<u8> {
    pad2(n / 100) + pad2(n % 100)
}

/// The fixed-width name of an untitled entry: `YYYY-MM-DD-HH-MM-SS`.
/// Fields stand most significant first and zero-padded, so that the byte
/// order of two such names is the order of their timestamps.
pub open spec fn timestamp_name_of(t: Timestamp) -> Seq<u8> {
    pad4(t.year as int) + seq![SEPARATOR] + pad2(t.month as int) + seq![SEPARATOR]
        + pad2(t.day as int) + seq![SEPARATOR] + pad2(t.hour as int) + seq![SEPARATOR]
        + pad2(t.minute as int) + seq![SEPARATOR] + pad2(t.second as int)
}

/// Strict lexicographic order on byte strings, byte by byte; a proper
/// prefix sorts before what extends it.
pub open spec fn lex_less(a: Seq<u8>, b: Seq<u8>) -> bool
    decreases a.len(),
{
    if b.len() == 0 {
        false
    } else if a.len() == 0 {
        true
    } else if a[0] < b[0] {
        true
    } else if a[0] > b[0] {
        false
    } else {
        lex_less(a.skip(1), b.skip(1))
    }
}

/// Appends the two digits of `n` to `v`.
fn push_pad2(v: &mut Vec<u8>, n: u8)
    requires
        n <= 99,
    ensures
        final(v)@ == old(v)@ + pad2(n as int),
{
    v.push(48 + n / 10);
    v.push(48 + n % 10);
    proof {
        assert(v@ =~= old(v)@ + pad2(n as int));
    }
}

/// Builds the timestamp name of `t`, exactly as `timestamp_name_of` states it.
pub fn timestamp_name(t: &Timestamp) -> (r: Vec<u8>)
    requires
        t.wf(),
    ensures
        r@ == timestamp_name_of(*t),
{
    let mut out: Vec<u8> = Vec::new();
    push_pad2(&mut out, (t.year / 100) as u8);
    push_pad2(&mut out, (t.year % 100) as u8);
    out.push(SEPARATOR);
    push_pad2(&mut out, t.month);
    out.push(SEPARATOR);
    push_pad2(&mut out, t.day);
    out.push(SEPARATOR);
    push_pad2(&mut out, t.hour);
    out.push(SEPARATOR);
    push_pad2(&mut out, t.minute);
    out.push(SEPARATOR);
    push_pad2(&mut out, t.second);
    proof {
        assert(out@ =~= timestamp_name_of(*t));
    }
    out
}

/// Equal prefixes cancel: comparing `a + b1` with `a + b2` is comparing
/// `b1` with `b2`.
proof fn lemma_lex_cancel_prefix(a: Seq<u8>, b1: Seq<u8>, b2: Seq<u8>)
    ensures
        lex_less(a + b1, a + b2) == lex_less(b1, b2),
    decreases a.len(),
{
    if a.len() == 0 {
        assert(a + b1 =~= b1);
        assert(a + b2 =~= b2);
    } else {
        assert((a + b1).skip(1) =~= a.skip(1) + b1);
        assert((a + b2).skip(1) =~= a.skip(1) + b2);
        lemma_lex_cancel_prefix(a.skip(1), b1, b2);
    }
}

/// A strictly smaller prefix decides: if `a1` sorts before `a2` and both
/// have the same length, any two extensions keep that order.
proof fn lemma_lex_prefix_decides(a1: Seq<u8>, a2: Seq<u8>, b1: Seq<u8>, b2: Seq<u8>)
    requires
        a1.len() == a2.len(),
        lex_less(a1, a2),
    ensures
        lex_less(a1 + b1, a2 + b2),
    decreases a1.len(),
{
    if a1[0] < a2[0] {
        assert((a1 + b1)[0] == a1[0]);
        assert((a2 + b2)[0] == a2[0]);
    } else {
        assert(a1[0] == a2[0]);
        assert((a1 + b1)[0] == (a2 + b2)[0]);
        assert((a1 + b1).skip(1) =~= a1.skip(1) + b1);
        assert((a2 + b2).skip(1) =~= a2.skip(1) + b2);
        lemma_lex_prefix_decides(a1.skip(1), a2.skip(1), b1, b2);
    }
}

/// Zero-padded two-digit rendering respects numeric order.
proof fn lemma_pad2_mono(a: int, b: int)
    requires
        0 <= a < b <= 99,
    ensures
        lex_less(pad2(a), pad2(b)),
{
    reveal_with_fuel(lex_less, 3);
    assert(0 <= a / 10 <= 9 && 0 <= a % 10 <= 9);
    assert(0 <= b / 10 <= 9 && 0 <= b % 10 <= 9);
    if a / 10 == b / 10 {
        assert(a % 10 < b % 10);
        assert(pad2(a)[0] == pad2(b)[0]);
        assert(pad2(a).skip(1) =~= seq![digit(a % 10)]);
        assert(pad2(b).skip(1) =~= seq![digit(b % 10)]);
        assert(digit(a % 10) < digit(b % 10));
    } else {
        assert(a / 10 < b / 10);
        assert(pad2(a)[0] == digit(a / 10));
        assert(pad2(b)[0] == digit(b / 10));
        assert(digit(a / 10) < digit(b / 10));
    }
}

/// Zero-padded four-digit rendering respects numeric order.
proof fn lemma_pad4_mono(a: int, b: int)
    requires
        0 <= a < b <= 9999,
    ensures
        lex_less(pad4(a), pad4(b)),
{
    if a / 100 == b / 100 {
        assert(a % 100 < b % 100);
        lemma_pad2_mono(a % 100, b % 100);
        lemma_lex_cancel_prefix(pad2(a / 100), pad2(a % 100), pad2(b % 100));
    } else {
        assert(a / 100 < b / 100);
        lemma_pad2_mono(a / 100, b / 100);
        lemma_lex_prefix_decides(pad2(a / 100), pad2(b / 100), pad2(a % 100), pad2(b % 100));
    }
}

/// After an equal prefix `p`, the first differing two-digit field decides
/// the order of two names, whatever follows it.
proof fn lemma_field_decides(p: Seq<u8>, f1: int, f2: int, tail1: Seq<u8>, tail2: Seq<u8>)
    requires
        0 <= f1 < f2 <= 99,
    ensures
        lex_less(p + (pad2(f1) + tail1), p + (pad2(f2) + tail2)),
{
    lemma_pad2_mono(f1, f2);
    lemma_lex_prefix_decides(pad2(f1), pad2(f2), tail1, tail2);
    lemma_lex_cancel_prefix(p, pad2(f1) + tail1, pad2(f2) + tail2);
}

/// Names of untitled entries sort chronologically: an entry created later
/// gets a name that sorts lexicographically after one created earlier.
#[verifier::rlimit(100)]
pub proof fn lemma_timestamp_names_sorted(t1: Timestamp, t2: Timestamp)
    requires
        t1.wf(),
        t2.wf(),
        t1.before(t2),
    ensures
        lex_less(timestamp_name_of(t1), timestamp_name_of(t2)),
{
    let s = seq![SEPARATOR];
    let n1 = timestamp_name_of(t1);
    let n2 = timestamp_name_of(t2);
    if t1.year != t2.year {
        let tail1 = s + pad2(t1.month as int) + s + pad2(t1.day as int) + s + pad2(
            t1.hour as int,
        ) + s + pad2(t1.minute as int) + s + pad2(t1.second as int);
        let tail2 = s + pad2(t2.month as int) + s + pad2(t2.day as int) + s + pad2(
            t2.hour as int,
        ) + s + pad2(t2.minute as int) + s + pad2(t2.second as int);
        lemma_pad4_mono(t1.year as int, t2.year as int);
        lemma_lex_prefix_decides(pad4(t1.year as int), pad4(t2.year as int), tail1, tail2);
        assert(n1 =~= pad4(t1.year as int) + tail1);
        assert(n2 =~= pad4(t2.year as int) + tail2);
    } else if t1.month != t2.month {
        let p = pad4(t1.year as int) + s;
        let tail1 = s + pad2(t1.day as int) + s + pad2(t1.hour as int) + s + pad2(
            t1.minute as int,
        ) + s + pad2(t1.second as int);
        let tail2 = s + pad2(t2.day as int) + s + pad2(t2.hour as int) + s + pad2(
            t2.minute as int,
        ) + s + pad2(t2.second as int);
        lemma_field_decides(p, t1.month as int, t2.month as int, tail1, tail2);
        assert(n1 =~= p + (pad2(t1.month as int) + tail1));
        assert(n2 =~= p + (pad2(t2.month as int) + tail2));
    } else if t1.day != t2.day {
        let p = pad4(t1.year as int) + s + pad2(t1.month as int) + s;
        let tail1 = s + pad2(t1.hour as int) + s + pad2(t1.minute as int) + s + pad2(
            t1.second as int,
        );
        let tail2 = s + pad2(t2.hour as int) + s + pad2(t2.minute as int) + s + pad2(
            t2.second as int,
        );
        lemma_field_decides(p, t1.day as int, t2.day as int, tail1, tail2);
        assert(n1 =~= p + (pad2(t1.day as int) + tail1));
        assert(n2 =~= p + (pad2(t2.day as int) + tail2));
    } else if t1.hour != t2.hour {
        let p = pad4(t1.year as int) + s + pad2(t1.month as int) + s + pad2(t1.day as int) + s;
        let tail1 = s + pad2(t1.minute as int) + s + pad2(t1.second as int);
        let tail2 = s + pad2(t2.minute as int) + s + pad2(t2.second as int);
        lemma_field_decides(p, t1.hour as int, t2.hour as int, tail1, tail2);
        assert(n1 =~= p + (pad2(t1.hour as int) + tail1));
        assert(n2 =~= p + (pad2(t2.hour as int) + tail2));
    } else if t1.minute != t2.minute {
        let p = pad4(t1.year as int) + s + pad2(t1.month as int) + s + pad2(t1.day as int) + s
            + pad2(t1.hour as int) + s;
        let tail1 = s + pad2(t1.second as int);
        let tail2 = s + pad2(t2.second as int);
        lemma_field_decides(p, t1.minute as int, t2.minute as int, tail1, tail2);
        assert(n1 =~= p + (pad2(t1.minute as int) + tail1));
        assert(n2 =~= p + (pad2(t2.minute as int) + tail2));
    } else {
        let p = pad4(t1.year as int) + s + pad2(t1.month as int) + s + pad2(t1.day as int) + s
            + pad2(t1.hour as int) + s + pad2(t1.minute as int) + s;
        lemma_field_decides(p, t1.second as int, t2.second as int, Seq::empty(), Seq::empty());
        assert(n1 =~= p + (pad2(t1.second as int) + Seq::<u8>::empty()));
        assert(n2 =~= p + (pad2(t2.second as int) + Seq::<u8>::empty()));
    }
}

/// The base name derived for a draft: the slug of its title when that slug
/// is non-empty, else its timestamp name. A title that yields an empty slug
/// (all punctuation, say) falls back to the timestamp, so a derived name is
/// never empty.
pub open spec fn derived_name_of(title: Option<Seq<u8>>, t: Timestamp) -> Seq<u8> {
    match title {
        Option::Some(s) => if slug_of(s).len() > 0 {
            slug_of(s)
        } else {
            timestamp_name_of(t)
        },
        Option::None => timestamp_name_of(t),
    }
}

/// Untitled drafts sort chronologically: of two drafts without a title,
/// the one created later derives the lexicographically larger name.
pub proof fn lemma_untitled_names_sort(t1: Timestamp, t2: Timestamp)
    requires
        t1.wf(),
        t2.wf(),
        t1.before(t2),
    ensures
        lex_less(derived_name_of(Option::None, t1), derived_name_of(Option::None, t2)),
{
    lemma_timestamp_names_sorted(t1, t2);
}

/// Derives the base file name for a draft, exactly as `derived_name_of`
/// states it; a derived name is never empty.
pub fn derive_name(title: &Option<Vec<u8>>, created: &Timestamp) -> (r: Vec<u8>)
    requires
        created.wf(),
    ensures
        r@ == derived_name_of(title.deep_view(), *created),
        r@.len() > 0,
{
    match title {
        Option::Some(t) => {
            proof {
                assert(t.deep_view() =~= t@);
            }
            let s = slugify(t);
            if s.len() > 0 {
                s
            } else {
                timestamp_name(created)
            }
        },
        Option::None => timestamp_name(created),
    }
}

/// Byte strings compare equal exactly when their views do.
pub fn bytes_eq(a: &Vec<u8>, b: &Vec<u8>) -> (r: bool)
    ensures
        r == (a@ == b@),
{
    if a.len() != b.len() {
        return false;
    }
    let mut i: usize = 0;
    while i < a.len()
        invariant
            i <= a.len(),
            a@.len() == b@.len(),
            forall|j: int| 0 <= j < i ==> a@[j] == b@[j],
        decreases a.len() - i,
    {
        if a[i] != b[i] {
            return false;
        }
        i = i + 1;
    }
    proof {
        assert(a@ =~= b@);
    }
    true
}

/// A name is taken when it already stands in the directory listing.
pub open spec fn taken(names: Seq<Seq<u8>>, n: Seq<u8>) -> bool {
    exists|i: int| 0 <= i < names.len() && names[i] == n
}

/// Checks whether `name` stands in `names`, exactly as `taken` states it.
pub fn contains_name(names: &Vec<Vec<u8>>, name: &Vec<u8>) -> (r: bool)
    ensures
        r == taken(names.deep_view(), name@),
{
    let mut i: usize = 0;
    while i < names.len()
        invariant
            i <= names.len(),
            forall|j: int| 0 <= j < i ==> names.deep_view()[j] != name@,
        decreases names.len() - i,
    {
        if bytes_eq(&names[i], name) {
            proof {
                assert(names.deep_view()[i as int] == names@[i as int]@);
            }
            return true;
        }
        proof {
            assert(names.deep_view()[i as int] == names@[i as int]@);
        }
        i = i + 1;
    }
    false
}

/// `n` rendered in decimal, without padding and without sign; `n` must not
/// be negative.
pub open spec fn dec_digits(n: int) -> Seq<u8>
    recommends
        n >= 0,
    decreases n,
{
    if n < 10 {
        seq![digit(n)]
    } else {
        dec_digits(n / 10) + seq![digit(n % 10)]
    }
}

/// Appends the decimal digits of `n` to `v`.
fn push_decimal(v: &mut Vec<u8>, n: u64)
    ensures
        final(v)@ == old(v)@ + dec_digits(n as int),
    decreases n,
{
    if n < 10 {
        v.push(48 + n as u8);
        proof {
            assert(v@ =~= old(v)@ + dec_digits(n as int));
        }
    } else {
        push_decimal(v, n / 10);
        v.push(48 + (n % 10) as u8);
        proof {
            assert(v@ =~= old(v)@ + dec_digits(n as int));
        }
    }
}

/// The base name with a numeric disambiguator: `base-k`.
pub open spec fn suffixed(base: Seq<u8>, k: int) -> Seq<u8> {
    base + seq![SEPARATOR] + dec_digits(k)
}

/// What collision resolution returns: the base name when it is free, else
/// the base with the smallest disambiguator whose name is free.
pub open spec fn resolved_ok(names: Seq<Seq<u8>>, base: Seq<u8>, r: Seq<u8>) -> bool {
    &&& !taken(names, r)
    &&& (!taken(names, base) ==> r == base)
    &&& (taken(names, base) ==> exists|k: int|
        1 <= k && r == suffixed(base, k) && (forall|j: int|
            1 <= j < k ==> taken(names, suffixed(base, j))))
}

proof fn lemma_dec_digits_len(n: int)
    requires
        n >= 0,
    ensures
        dec_digits(n).len() >= 1,
        n >= 10 ==> dec_digits(n).len() >= 2,
    decreases n,
{
    if n >= 10 {
        lemma_dec_digits_len(n / 10);
    }
}

proof fn lemma_dec_digits_inj(k1: int, k2: int)
    requires
        k1 >= 0,
        k2 >= 0,
        dec_digits(k1) == dec_digits(k2),
    ensures
        k1 == k2,
    decreases k1,
{
    lemma_dec_digits_len(k1);
    lemma_dec_digits_len(k2);
    if k1 < 10 && k2 < 10 {
        assert(dec_digits(k1)[0] == digit(k1));
        assert(dec_digits(k2)[0] == digit(k2));
    } else if k1 >= 10 && k2 >= 10 {
        lemma_dec_digits_len(k1 / 10);
        lemma_dec_digits_len(k2 / 10);
        assert(dec_digits(k1).drop_last() =~= dec_digits(k1 / 10));
        assert(dec_digits(k2).drop_last() =~= dec_digits(k2 / 10));
        lemma_dec_digits_inj(k1 / 10, k2 / 10);
        assert(dec_digits(k1).last() == digit(k1 % 10));
        assert(dec_digits(k2).last() == digit(k2 % 10));
    } else if k1 < 10 {
        assert(dec_digits(k1).len() == 1);
        assert(dec_digits(k2).len() >= 2);
    } else {
        assert(dec_digits(k2).len() == 1);
        assert(dec_digits(k1).len() >= 2);
    }
}

proof fn lemma_suffixed_inj(base: Seq<u8>, k1: int, k2: int)
    requires
        k1 >= 1,
        k2 >= 1,
        suffixed(base, k1) == suffixed(base, k2),
    ensures
        k1 == k2,
{
    let p = base + seq![SEPARATOR];
    let s1 = suffixed(base, k1);
    let s2 = suffixed(base, k2);
    assert(s1 =~= p + dec_digits(k1));
    assert(s2 =~= p + dec_digits(k2));
    assert(dec_digits(k1) =~= s1.subrange(p.len() as int, s1.len() as int));
    assert(dec_digits(k2) =~= s2.subrange(p.len() as int, s2.len() as int));
    lemma_dec_digits_inj(k1, k2);
}

/// A suffixed name is strictly longer than its base, so it never equals it.
proof fn lemma_suffixed_ne_base(base: Seq<u8>, k: int)
    requires
        k >= 1,
    ensures
        suffixed(base, k) != base,
{
    lemma_dec_digits_len(k);
    assert(suffixed(base, k).len() > base.len());
}

/// The disambiguated names tried so far, as a set.
spec fn suffix_set(base: Seq<u8>, k: int) -> Set<Seq<u8>> {
    Set::new(|x: Seq<u8>| exists|j: int| 1 <= j < k && x == suffixed(base, j))
}

proof fn lemma_suffix_set_card(base: Seq<u8>, k: int)
    requires
        k >= 1,
    ensures
        suffix_set(base, k).finite(),
        suffix_set(base, k).len() == k - 1,
    decreases k,
{
    if k == 1 {
        assert(suffix_set(base, 1) =~= Set::<Seq<u8>>::empty());
    } else {
        lemma_suffix_set_card(base, k - 1);
        let prev = suffix_set(base, k - 1);
        let newest = suffixed(base, k - 1);
        assert(!prev.contains(newest)) by {
            if prev.contains(newest) {
                let j = choose|j: int| 1 <= j < k - 1 && newest == suffixed(base, j);
                lemma_suffixed_inj(base, j, k - 1);
            }
        }
        assert(suffix_set(base, k) =~= prev.insert(newest));
    }
}

/// Pigeonhole: when the base name and every disambiguated name below `k`
/// are all taken, the listing holds at least `k` names.
proof fn lemma_suffixes_bound(names: Seq<Seq<u8>>, base: Seq<u8>, k: int)
    requires
        k >= 1,
        taken(names, base),
        forall|j: int| 1 <= j < k ==> taken(names, suffixed(base, j)),
    ensures
        k <= names.len(),
{
    lemma_suffix_set_card(base, k);
    names.lemma_cardinality_of_set();
    let tried = suffix_set(base, k).insert(base);
    assert(!suffix_set(base, k).contains(base)) by {
        if suffix_set(base, k).contains(base) {
            let j = choose|j: int| 1 <= j < k && base == suffixed(base, j);
            lemma_suffixed_ne_base(base, j);
        }
    }
    assert(tried.len() == k);
    assert(tried.subset_of(names.to_set())) by {
        assert forall|x: Seq<u8>| tried.contains(x) implies names.to_set().contains(x) by {
            if x == base {
                let i = choose|i: int| 0 <= i < names.len() && names[i] == base;
                assert(names.contains(names[i]));
            } else {
                let j = choose|j: int| 1 <= j < k && x == suffixed(base, j);
                assert(taken(names, suffixed(base, j)));
                let i = choose|i: int| 0 <= i < names.len() && names[i] == x;
                assert(names.contains(names[i]));
            }
        }
    }
    vstd::set_lib::lemma_len_subset(tried, names.to_set());
}

/// Finds a free name for `base` in the listing `existing`: the base itself
/// when free, else `base-1`, `base-2`, ... at the smallest free
/// disambiguator. The returned name is never one that already exists.
pub fn resolve_collision(base: &Vec<u8>, existing: &Vec<Vec<u8>>) -> (r: Vec<u8>)
    ensures
        resolved_ok(existing.deep_view(), base@, r@),
{
    if !contains_name(existing, base) {
        return base.clone();
    }
    let ghost names = existing.deep_view();
    let n = existing.len();
    let mut k: usize = 1;
    loop
        invariant
            1 <= k,
            k <= names.len() + 1,
            names.len() == n,
            names == existing.deep_view(),
            taken(names, base@),
            forall|j: int| 1 <= j < k ==> taken(names, suffixed(base@, j)),
        decreases names.len() + 1 - k,
    {
        let mut candidate = base.clone();
        candidate.push(SEPARATOR);
        push_decimal(&mut candidate, k as u64);
        proof {
            assert(candidate@ =~= suffixed(base@, k as int));
        }
        if !contains_name(existing, &candidate) {
            proof {
                assert(1 <= k as int && candidate@ == suffixed(base@, k as int) && (forall|j: int|
                    1 <= j < k as int ==> taken(names, suffixed(base@, j))));
            }
            return candidate;
        }
        proof {
            lemma_suffixes_bound(names, base@, k as int + 1);
        }
        k = k + 1;
    }
}

/// A byte string fit for a file name: every byte filesystem-safe.
pub open spec fn all_safe(s: Seq<u8>) -> bool {
    forall|i: int| 0 <= i < s.len() ==> safe_byte(#[trigger] s[i])
}

proof fn lemma_all_safe_concat(a: Seq<u8>, b: Seq<u8>)
    requires
        all_safe(a),
        all_safe(b),
    ensures
        all_safe(a + b),
{
    assert forall|i: int| 0 <= i < (a + b).len() implies safe_byte((a + b)[i]) by {
        if i < a.len() {
            assert((a + b)[i] == a[i]);
        } else {
            assert((a + b)[i] == b[i - a.len()]);
        }
    }
}

proof fn lemma_pad2_safe(n: int)
    requires
        0 <= n <= 99,
    ensures
        all_safe(pad2(n)),
{
    assert(pad2(n)[0] == digit(n / 10));
    assert(pad2(n)[1] == digit(n % 10));
}

/// Every byte of a timestamp name is a digit or the separator.
pub proof fn lemma_timestamp_name_safe(t: Timestamp)
    requires
        t.wf(),
    ensures
        all_safe(timestamp_name_of(t)),
{
    let s = seq![SEPARATOR];
    assert(all_safe(s));
    lemma_pad2_safe(t.year as int / 100);
    lemma_pad2_safe(t.year as int % 100);
    lemma_all_safe_concat(pad2(t.year as int / 100), pad2(t.year as int % 100));
    lemma_pad2_safe(t.month as int);
    lemma_pad2_safe(t.day as int);
    lemma_pad2_safe(t.hour as int);
    lemma_pad2_safe(t.minute as int);
    lemma_pad2_safe(t.second as int);
    lemma_all_safe_concat(pad4(t.year as int), s);
    lemma_all_safe_concat(pad4(t.year as int) + s, pad2(t.month as int));
    lemma_all_safe_concat(pad4(t.year as int) + s + pad2(t.month as int), s);
    lemma_all_safe_concat(pad4(t.year as int) + s + pad2(t.month as int) + s, pad2(t.day as int));
    lemma_all_safe_concat(
        pad4(t.year as int) + s + pad2(t.month as int) + s + pad2(t.day as int),
        s,
    );
    lemma_all_safe_concat(
        pad4(t.year as int) + s + pad2(t.month as int) + s + pad2(t.day as int) + s,
        pad2(t.hour as int),
    );
    lemma_all_safe_concat(
        pad4(t.year as int) + s + pad2(t.month as int) + s + pad2(t.day as int) + s + pad2(
            t.hour as int,
        ),
        s,
    );
    lemma_all_safe_concat(
        pad4(t.year as int) + s + pad2(t.month as int) + s + pad2(t.day as int) + s + pad2(
            t.hour as int,
        ) + s,
        pad2(t.minute as int),
    );
    lemma_all_safe_concat(
        pad4(t.year as int) + s + pad2(t.month as int) + s + pad2(t.day as int) + s + pad2(
            t.hour as int,
        ) + s + pad2(t.minute as int),
        s,
    );
    lemma_all_safe_concat(
        pad4(t.year as int) + s + pad2(t.month as int) + s + pad2(t.day as int) + s + pad2(
            t.hour as int,
        ) + s + pad2(t.minute as int) + s,
        pad2(t.second as int),
    );
}

proof fn lemma_dec_digits_safe(n: int)
    requires
        n >= 0,
    ensures
        all_safe(dec_digits(n)),
    decreases n,
{
    if n < 10 {
        assert(dec_digits(n)[0] == digit(n));
    } else {
        lemma_dec_digits_safe(n / 10);
        lemma_all_safe_concat(dec_digits(n / 10), seq![digit(n % 10)]);
    }
}

/// Every byte of a derived base name is filesystem-safe, whether it came
/// from the title's slug or from the timestamp.
pub proof fn lemma_derived_name_safe(title: Option<Seq<u8>>, t: Timestamp)
    requires
        t.wf(),
    ensures
        all_safe(derived_name_of(title, t)),
{
    if title is Some && slug_of(title->0).len() > 0 {
        lemma_slug_safe(title->0);
    } else {
        lemma_timestamp_name_safe(t);
    }
}

/// Collision resolution keeps a name filesystem-safe: it returns the base
/// or the base with a separator and decimal digits appended.
pub proof fn lemma_resolved_name_safe(names: Seq<Seq<u8>>, base: Seq<u8>, r: Seq<u8>)
    requires
        all_safe(base),
        resolved_ok(names, base, r),
    ensures
        all_safe(r),
{
    if taken(names, base) {
        let k = choose|k: int|
            1 <= k && r == suffixed(base, k) && (forall|j: int|
                1 <= j < k ==> taken(names, suffixed(base, j)));
        lemma_dec_digits_safe(k);
        lemma_all_safe_concat(base, seq![SEPARATOR]);
        lemma_all_safe_concat(base + seq![SEPARATOR], dec_digits(k));
    }
}

/// Separators stand collapsed: a byte string neither starts with one nor
/// holds two in a row.
pub open spec fn sep_collapsed(s: Seq<u8>) -> bool {
    &&& (s.len() > 0 ==> s[0] != SEPARATOR)
    &&& forall|i: int| #![trigger s[i]] 1 <= i < s.len() ==> !(s[i] == SEPARATOR && s[i - 1] == SEPARATOR)
}

proof fn lemma_slug_core_collapsed(s: Seq<u8>)
    ensures
        sep_collapsed(slug_core(s)),
    decreases s.len(),
{
    if s.len() > 0 {
        lemma_slug_core_collapsed(s.drop_last());
        let prev = slug_core(s.drop_last());
        let cur = slug_core(s);
        if cur != prev {
            assert forall|i: int| #![trigger cur[i]] 1 <= i < cur.len() implies !(cur[i]
                == SEPARATOR && cur[i - 1] == SEPARATOR) by {
                if i < prev.len() {
                    assert(cur[i] == prev[i]);
                    assert(cur[i - 1] == prev[i - 1]);
                } else {
                    assert(cur[i - 1] == prev[i - 1]);
                    assert(prev[i - 1] == prev.last());
                }
            }
        }
    }
}

/// Titles collapse cleanly: a slug never starts with a separator, never
/// ends with one, and never holds two in a row.
pub proof fn lemma_slug_collapsed(s: Seq<u8>)
    ensures
        sep_collapsed(slug_of(s)),
        slug_of(s).len() > 0 ==> slug_of(s).last() != SEPARATOR,
{
    lemma_slug_core_collapsed(s);
    let core = slug_core(s);
    let cut = if core.len() > SLUG_MAX {
        core.take(SLUG_MAX as int)
    } else {
        core
    };
    assert(sep_collapsed(cut));
    let out = trim_trailing_separator(cut);
    assert(sep_collapsed(out));
    if out.len() > 0 && out.last() == SEPARATOR {
        assert(cut.len() > out.len());
        assert(cut[out.len() as int - 1] == SEPARATOR && cut[out.len() as int] == SEPARATOR);
    }
}

proof fn lemma_slug_core_safe(s: Seq<u8>)
    ensures
        forall|i: int| 0 <= i < slug_core(s).len() ==> safe_byte(#[trigger] slug_core(s)[i]),
    decreases s.len(),
{
    if s.len() > 0 {
        lemma_slug_core_safe(s.drop_last());
        let prev = slug_core(s.drop_last());
        let cur = slug_core(s);
        assert forall|i: int| 0 <= i < cur.len() implies safe_byte(cur[i]) by {
            if i < prev.len() {
                assert(cur[i] == prev[i]);
            }
        }
    }
}

} // verus!
