//! Unique-slug derivation.
//!
//! A slug is a URL-safe identifier derived from a post title.  Given a base
//! candidate and the slugs already stored that could collide with it (those
//! equal to the base or of the form `base-<digits>`), the generator returns
//! the base itself when nothing collides, and otherwise `base-<n+1>` where
//! `n` is the largest numeric suffix among the colliding slugs (a slug with
//! no numeric suffix, or a suffix that does not fit `u32`, counts as zero).

use vstd::prelude::*;
use vstd::string::StringExecFns;

use crate::textutil::all_dec_digits;
use crate::textutil::chars_start_with;
use crate::textutil::dec_digits;
use crate::textutil::dec_u32_or_zero;
use crate::textutil::digits_val;
use crate::textutil::is_dec_digit;
use crate::textutil::parse_u32_or_zero;
use crate::textutil::range_all_digits;
use crate::textutil::spec_digit_char;
use crate::textutil::str_chars;
use crate::textutil::u64_to_dec;

verus! {

/// A character that can appear in a slug.
pub open spec fn is_slug_char(c: char) -> bool {
    ('a' <= c && c <= 'z') || is_dec_digit(c) || c == '-'
}

/// What `slug::slugify` returns; a function of the input characters alone.
pub uninterp spec fn slug_of(s: Seq<char>) -> Seq<char>;

/// Relies on `slug::slugify`: converts any string to an ASCII slug made of
/// `a-z`, `0-9` and `-`; an empty input yields an empty slug.
#[verifier::external_body]
pub fn slugify(s: &str) -> (r: String)
    ensures
        r@ == slug_of(s@),
        s@.len() == 0 ==> r@.len() == 0,
        forall|i: int| 0 <= i < r@.len() ==> is_slug_char(#[trigger] r@[i]),
{
    slug::slugify(s)
}

/// The numeric suffix the generator reads from an existing slug, relative to
/// `base`: the digits of `base-<digits>` when they fit `u32`, else zero.
pub open spec fn slug_suffix_val(slug: Seq<char>, base: Seq<char>) -> nat {
    if slug.len() >= base.len() + 2 && slug.take(base.len() as int) == base && slug[base.len() as int]
        == '-' && all_dec_digits(slug.skip(base.len() + 1 as int)) {
        dec_u32_or_zero(slug.skip(base.len() + 1 as int))
    } else {
        0
    }
}

/// The largest suffix value among `slugs`.
pub open spec fn max_suffix(slugs: Seq<Seq<char>>, base: Seq<char>) -> nat
    decreases slugs.len(),
{
    if slugs.len() == 0 {
        0
    } else {
        let rest = max_suffix(slugs.drop_last(), base);
        let v = slug_suffix_val(slugs.last(), base);
        if v > rest {
            v
        } else {
            rest
        }
    }
}

/// The slug the generator produces for `base` against the colliding slugs.
pub open spec fn next_slug_spec(base: Seq<char>, slugs: Seq<Seq<char>>) -> Seq<char> {
    if slugs.len() == 0 {
        base
    } else {
        base + seq!['-'] + dec_digits(max_suffix(slugs, base) + 1)
    }
}

/// Suffix value of one stored slug against `base` (as characters).
fn slug_suffix_value(slug: &String, base_chars: &Vec<char>) -> (v: u32)
    ensures
        v == slug_suffix_val(slug@, base_chars@),
{
    let sc = str_chars(slug.as_str());
    let blen = base_chars.len();
    if blen <= usize::MAX - 2 && sc.len() >= blen + 2 && chars_start_with(&sc, base_chars) {
        proof {
            assert(slug@.len() >= base_chars@.len() + 2);
        }
        proof {
            assert(sc@.take(base_chars@.len() as int) =~= slug@.take(base_chars@.len() as int));
        }
        if sc[blen] == '-' && range_all_digits(&sc, blen + 1, sc.len()) {
            proof {
                assert(sc@.subrange(blen + 1, sc@.len() as int) =~= slug@.skip(blen + 1 as int));
            }
            let v = parse_u32_or_zero(&sc, blen + 1, sc.len());
            assert(v == slug_suffix_val(slug@, base_chars@));
            v
        } else {
            assert(0 == slug_suffix_val(slug@, base_chars@));
            0
        }
    } else {
        assert(0 == slug_suffix_val(slug@, base_chars@));
        0
    }
}

/// Derive a slug for `base` that is distinct from every stored slug.
///
/// `existing` must hold the stored slugs that could collide with `base`:
/// those equal to it or extending it with a dash.  With no collision the
/// base is returned unchanged; otherwise the largest numeric suffix among
/// the collisions is incremented and appended.
pub fn generate_uniq_slug(base: &String, existing: &Vec<String>) -> (r: String)
    ensures
        r@ == next_slug_spec(base@, existing.deep_view()),
{
    if existing.len() == 0 {
        proof {
            assert(existing.deep_view().len() == 0);
        }
        return base.clone();
    }
    let base_chars = str_chars(base.as_str());
    let ghost slugs = existing.deep_view();
    let mut m: u32 = 0;
    let mut i: usize = 0;
    while i < existing.len()
        invariant
            i <= existing.len(),
            slugs == existing.deep_view(),
            slugs.len() == existing@.len(),
            forall|j: int| 0 <= j < slugs.len() ==> slugs[j] == existing@[j]@,
            base_chars@ == base@,
            m == max_suffix(slugs.take(i as int), base@),
        decreases existing.len() - i,
    {
        let v = slug_suffix_value(&existing[i], &base_chars);
        proof {
            assert(slugs.take(i + 1).drop_last() =~= slugs.take(i as int));
            assert(slugs.take(i + 1).last() == existing@[i as int]@);
        }
        if v > m {
            m = v;
        }
        i = i + 1;
    }
    proof {
        assert(slugs.take(existing@.len() as int) =~= slugs);
    }
    let n: u64 = (m as u64) + 1;
    let num = u64_to_dec(n);
    proof {
        reveal_strlit("-");
    }
    let r = base.clone().concat("-").concat(num.as_str());
    proof {
        assert(("-")@ =~= seq!['-']);
        assert(r@ =~= base@ + seq!['-'] + dec_digits((m + 1) as nat));
    }
    r
}

/// Rendering a number and reading it back are inverse: the decimal digits of
/// `n` are digits, nonempty, and carry the value `n`.
pub proof fn lemma_dec_digits_val(n: nat)
    ensures
        all_dec_digits(dec_digits(n)),
        dec_digits(n).len() >= 1,
        digits_val(dec_digits(n)) == n,
    decreases n,
{
    if n < 10 {
        let s = dec_digits(n);
        assert(s =~= seq![spec_digit_char(n)]);
        assert(s.drop_last() =~= Seq::<char>::empty());
        assert(digits_val(s) == digits_val(s.drop_last()) * 10 + crate::textutil::digit_val_of(
            s.last(),
        ));
    } else {
        lemma_dec_digits_val(n / 10);
        let s = dec_digits(n);
        assert(s == dec_digits(n / 10).push(spec_digit_char(n % 10)));
        assert(s.drop_last() =~= dec_digits(n / 10));
        assert(s.last() == spec_digit_char(n % 10));
        assert(digits_val(s) == (n / 10) * 10 + n % 10);
        assert((n / 10) * 10 + n % 10 == n) by {
            vstd::arithmetic::div_mod::lemma_fundamental_div_mod(n as int, 10);
        }
        assert forall|i: int| 0 <= i < s.len() implies is_dec_digit(#[trigger] s[i]) by {
            if i < s.len() - 1 {
                assert(s[i] == dec_digits(n / 10)[i]);
            }
        }
    }
}

/// Every listed slug's suffix value is bounded by the maximum.
pub proof fn lemma_max_suffix_bounds(slugs: Seq<Seq<char>>, base: Seq<char>)
    ensures
        forall|i: int|
            0 <= i < slugs.len() ==> slug_suffix_val(#[trigger] slugs[i], base) <= max_suffix(
                slugs,
                base,
            ),
    decreases slugs.len(),
{
    if slugs.len() > 0 {
        lemma_max_suffix_bounds(slugs.drop_last(), base);
        assert forall|i: int|
            0 <= i < slugs.len() implies slug_suffix_val(#[trigger] slugs[i], base) <= max_suffix(
            slugs,
            base,
        ) by {
            if i < slugs.len() - 1 {
                assert(slugs.drop_last()[i] == slugs[i]);
                assert(slug_suffix_val(slugs[i], base) <= max_suffix(slugs.drop_last(), base));
            }
        }
    }
}

/// Slug uniqueness: the generated slug differs from every slug it was
/// generated against, as long as the largest suffix in use has not yet
/// exhausted `u32`.
pub proof fn lemma_next_slug_fresh(base: Seq<char>, slugs: Seq<Seq<char>>)
    requires
        max_suffix(slugs, base) < u32::MAX,
    ensures
        forall|i: int| 0 <= i < slugs.len() ==> #[trigger] slugs[i] != next_slug_spec(base, slugs),
{
    if slugs.len() > 0 {
        let m = max_suffix(slugs, base);
        let r = next_slug_spec(base, slugs);
        lemma_dec_digits_val(m + 1);
        lemma_max_suffix_bounds(slugs, base);
        assert(r.take(base.len() as int) =~= base);
        assert(r.skip(base.len() + 1 as int) =~= dec_digits(m + 1));
        assert(r[base.len() as int] == '-');
        assert(slug_suffix_val(r, base) == m + 1);
        assert forall|i: int| 0 <= i < slugs.len() implies #[trigger] slugs[i] != r by {
            assert(slug_suffix_val(slugs[i], base) <= m);
        }
    }
}

/// The slug of the `i`-th create in a run over one base: the base itself
/// first, then numbered variants.
pub open spec fn run_slug(base: Seq<char>, i: nat) -> Seq<char> {
    if i == 0 {
        base
    } else {
        base + seq!['-'] + dec_digits(i)
    }
}

/// The slugs of `n` successive creates over one base, each derived against
/// all its predecessors.
pub open spec fn slug_run(base: Seq<char>, n: nat) -> Seq<Seq<char>>
    decreases n,
{
    if n == 0 {
        Seq::empty()
    } else {
        let prev = slug_run(base, (n - 1) as nat);
        prev.push(next_slug_spec(base, prev))
    }
}

proof fn lemma_numbered_suffix_val(base: Seq<char>, j: nat)
    requires
        1 <= j <= u32::MAX,
    ensures
        slug_suffix_val(run_slug(base, j), base) == j,
{
    let s = run_slug(base, j);
    lemma_dec_digits_val(j);
    assert(s.take(base.len() as int) =~= base);
    assert(s[base.len() as int] == '-');
    assert(s.skip(base.len() + 1 as int) =~= dec_digits(j));
}

proof fn lemma_run_max(base: Seq<char>, k: nat)
    requires
        1 <= k <= u32::MAX,
        slug_run(base, k).len() == k,
        forall|i: int| 0 <= i < k ==> #[trigger] slug_run(base, k)[i] == run_slug(base, i as nat),
    ensures
        max_suffix(slug_run(base, k), base) == k - 1,
    decreases k,
{
    let run = slug_run(base, k);
    if k == 1 {
        assert(run[0] == run_slug(base, 0nat));
        assert(run.drop_last() =~= Seq::<Seq<char>>::empty());
        assert(slug_suffix_val(base, base) == 0);
        assert(run.last() == base);
        assert(max_suffix(Seq::<Seq<char>>::empty(), base) == 0);
        assert(max_suffix(run, base) == 0);
    } else {
        let prev = slug_run(base, (k - 1) as nat);
        assert(run == prev.push(next_slug_spec(base, prev)));
        assert(prev.len() == k - 1);
        assert(run.drop_last() =~= prev);
        assert forall|i: int| 0 <= i < k - 1 implies #[trigger] prev[i] == run_slug(
            base,
            i as nat,
        ) by {
            assert(run[i] == run_slug(base, i as nat));
        }
        lemma_run_max(base, (k - 1) as nat);
        assert(max_suffix(prev, base) == k - 2);
        assert(run.last() == run[k - 1]);
        assert(run[k - 1] == run_slug(base, (k - 1) as nat));
        lemma_numbered_suffix_val(base, (k - 1) as nat);
        assert(slug_suffix_val(run.last(), base) == k - 1);
        assert(max_suffix(run, base) == k - 1);
    }
}

/// Slug progression: `n` successive creates with the same base title
/// derive exactly `base, base-1, base-2, ...` in creation order, as long
/// as the run has not exhausted `u32` suffixes.
pub proof fn lemma_slug_run_progression(base: Seq<char>, n: nat)
    requires
        n <= u32::MAX,
    ensures
        slug_run(base, n).len() == n,
        forall|i: int| 0 <= i < n ==> #[trigger] slug_run(base, n)[i] == run_slug(base, i as nat),
    decreases n,
{
    if n > 0 {
        lemma_slug_run_progression(base, (n - 1) as nat);
        let prev = slug_run(base, (n - 1) as nat);
        let run = slug_run(base, n);
        assert(run == prev.push(next_slug_spec(base, prev)));
        if n == 1 {
            assert(prev.len() == 0);
            assert(run[0] == next_slug_spec(base, prev));
            assert(run[0] == run_slug(base, 0nat));
        } else {
            lemma_run_max(base, (n - 1) as nat);
            assert(max_suffix(prev, base) == n - 2);
            assert(next_slug_spec(base, prev) == base + seq!['-'] + dec_digits((n - 1) as nat));
            assert(run[n - 1] == run_slug(base, (n - 1) as nat));
        }
        assert forall|i: int| 0 <= i < n implies #[trigger] run[i] == run_slug(base, i as nat) by {
            if i < n - 1 {
                assert(run[i] == prev[i]);
            }
        }
    }
}

} // verus!
