//! Rendering helpers consumed by the assembly layer: roman numerals for
//! generation headings, the subtractive reading of a numeral string, and the
//! grouping of gallery images into flex runs.

use vstd::prelude::*;
use crate::mon::MonImage;
use crate::text;

verus! {

/// The thousands piece: one `M` per thousand up to three; the source table
/// marks four and more thousands with a placeholder.
pub open spec fn roman_thousands(x: nat) -> Seq<char> {
    if x == 1 {
        "M"@
    } else if x == 2 {
        "MM"@
    } else if x == 3 {
        "MMM"@
    } else if 4 <= x <= 9 {
        "?"@
    } else {
        Seq::<char>::empty()
    }
}

pub open spec fn roman_hundreds(x: nat) -> Seq<char> {
    if x == 1 {
        "C"@
    } else if x == 2 {
        "CC"@
    } else if x == 3 {
        "CCC"@
    } else if x == 4 {
        "CD"@
    } else if x == 5 {
        "D"@
    } else if x == 6 {
        "DC"@
    } else if x == 7 {
        "DCC"@
    } else if x == 8 {
        "DCCC"@
    } else if x == 9 {
        "CM"@
    } else {
        Seq::<char>::empty()
    }
}

pub open spec fn roman_tens(x: nat) -> Seq<char> {
    if x == 1 {
        "X"@
    } else if x == 2 {
        "XX"@
    } else if x == 3 {
        "XXX"@
    } else if x == 4 {
        "XL"@
    } else if x == 5 {
        "L"@
    } else if x == 6 {
        "LX"@
    } else if x == 7 {
        "LXX"@
    } else if x == 8 {
        "LXXX"@
    } else if x == 9 {
        "XC"@
    } else {
        Seq::<char>::empty()
    }
}

pub open spec fn roman_ones(x: nat) -> Seq<char> {
    if x == 1 {
        "I"@
    } else if x == 2 {
        "II"@
    } else if x == 3 {
        "III"@
    } else if x == 4 {
        "IV"@
    } else if x == 5 {
        "V"@
    } else if x == 6 {
        "VI"@
    } else if x == 7 {
        "VII"@
    } else if x == 8 {
        "VIII"@
    } else if x == 9 {
        "IX"@
    } else {
        Seq::<char>::empty()
    }
}

/// The roman numeral of `i`, place by place.
pub open spec fn roman_spec(i: nat) -> Seq<char> {
    roman_thousands(i / 1000) + roman_hundreds((i % 1000) / 100) + roman_tens((i % 100) / 10)
        + roman_ones(i % 10)
}

fn roman_thousands_exec(x: usize) -> (r: Vec<char>)
    ensures
        r@ == roman_thousands(x as nat),
{
    if x == 1 {
        text::str_to_chars("M")
    } else if x == 2 {
        text::str_to_chars("MM")
    } else if x == 3 {
        text::str_to_chars("MMM")
    } else if 4 <= x && x <= 9 {
        text::str_to_chars("?")
    } else {
        Vec::new()
    }
}

fn roman_hundreds_exec(x: usize) -> (r: Vec<char>)
    ensures
        r@ == roman_hundreds(x as nat),
{
    if x == 1 {
        text::str_to_chars("C")
    } else if x == 2 {
        text::str_to_chars("CC")
    } else if x == 3 {
        text::str_to_chars("CCC")
    } else if x == 4 {
        text::str_to_chars("CD")
    } else if x == 5 {
        text::str_to_chars("D")
    } else if x == 6 {
        text::str_to_chars("DC")
    } else if x == 7 {
        text::str_to_chars("DCC")
    } else if x == 8 {
        text::str_to_chars("DCCC")
    } else if x == 9 {
        text::str_to_chars("CM")
    } else {
        Vec::new()
    }
}

fn roman_tens_exec(x: usize) -> (r: Vec<char>)
    ensures
        r@ == roman_tens(x as nat),
{
    if x == 1 {
        text::str_to_chars("X")
    } else if x == 2 {
        text::str_to_chars("XX")
    } else if x == 3 {
        text::str_to_chars("XXX")
    } else if x == 4 {
        text::str_to_chars("XL")
    } else if x == 5 {
        text::str_to_chars("L")
    } else if x == 6 {
        text::str_to_chars("LX")
    } else if x == 7 {
        text::str_to_chars("LXX")
    } else if x == 8 {
        text::str_to_chars("LXXX")
    } else if x == 9 {
        text::str_to_chars("XC")
    } else {
        Vec::new()
    }
}

fn roman_ones_exec(x: usize) -> (r: Vec<char>)
    ensures
        r@ == roman_ones(x as nat),
{
    if x == 1 {
        text::str_to_chars("I")
    } else if x == 2 {
        text::str_to_chars("II")
    } else if x == 3 {
        text::str_to_chars("III")
    } else if x == 4 {
        text::str_to_chars("IV")
    } else if x == 5 {
        text::str_to_chars("V")
    } else if x == 6 {
        text::str_to_chars("VI")
    } else if x == 7 {
        text::str_to_chars("VII")
    } else if x == 8 {
        text::str_to_chars("VIII")
    } else if x == 9 {
        text::str_to_chars("IX")
    } else {
        Vec::new()
    }
}

/// The roman numeral of `i`.
pub fn roman_numerals(i: usize) -> (r: String)
    ensures
        r@ == roman_spec(i as nat),
{
    let mut out = roman_thousands_exec(i / 1000);
    let mut h = roman_hundreds_exec((i % 1000) / 100);
    let mut t = roman_tens_exec((i % 100) / 10);
    let mut o = roman_ones_exec(i % 10);
    out.append(&mut h);
    out.append(&mut t);
    out.append(&mut o);
    proof {
        assert(out@ =~= roman_spec(i as nat));
    }
    text::chars_to_string(&out)
}

/// The value a numeral character contributes; zero for any other character.
pub open spec fn roman_char_val(c: char) -> nat {
    if c == 'I' {
        1
    } else if c == 'V' {
        5
    } else if c == 'X' {
        10
    } else if c == 'L' {
        50
    } else if c == 'C' {
        100
    } else if c == 'D' {
        500
    } else if c == 'M' {
        1000
    } else {
        0
    }
}

/// The non-zero numeral values of a string, in order.
pub open spec fn roman_vals(s: Seq<char>) -> Seq<nat>
    decreases s.len(),
{
    if s.len() == 0 {
        Seq::<nat>::empty()
    } else if roman_char_val(s.last()) > 0 {
        roman_vals(s.drop_last()).push(roman_char_val(s.last()))
    } else {
        roman_vals(s.drop_last())
    }
}

/// One left-to-right subtractive pass: wherever a value is followed by a
/// larger one, the larger one absorbs it and it becomes zero.
pub open spec fn subtractive_pass(v: Seq<nat>, i: int) -> Seq<nat>
    decreases v.len() - i,
{
    if i < 0 || i >= v.len() - 1 {
        v
    } else {
        let w = if v[i + 1] > v[i] {
            v.update(i + 1, (v[i + 1] - v[i]) as nat).update(i, 0nat)
        } else {
            v
        };
        subtractive_pass(w, i + 1)
    }
}

pub open spec fn seq_sum(v: Seq<nat>) -> nat
    decreases v.len(),
{
    if v.len() == 0 {
        0
    } else {
        seq_sum(v.drop_last()) + v.last()
    }
}

/// The subtractive reading of a numeral string: its non-zero values, one
/// pass of subtraction, summed; nothing when no character is a numeral.
pub open spec fn roman_value_spec(s: Seq<char>) -> Option<nat> {
    let v = roman_vals(s);
    if v.len() == 0 {
        None
    } else {
        Some(seq_sum(subtractive_pass(v, 0)))
    }
}

pub open spec fn u_views(v: Seq<usize>) -> Seq<nat> {
    v.map_values(|x: usize| x as nat)
}

fn roman_char_val_exec(c: char) -> (r: usize)
    ensures
        r as nat == roman_char_val(c),
{
    if c == 'I' {
        1
    } else if c == 'V' {
        5
    } else if c == 'X' {
        10
    } else if c == 'L' {
        50
    } else if c == 'C' {
        100
    } else if c == 'D' {
        500
    } else if c == 'M' {
        1000
    } else {
        0
    }
}

proof fn lemma_roman_vals_bound(s: Seq<char>)
    ensures
        roman_vals(s).len() <= s.len(),
        forall|j: int| 0 <= j < roman_vals(s).len() ==> #[trigger] roman_vals(s)[j] <= 1000,
    decreases s.len(),
{
    if s.len() > 0 {
        lemma_roman_vals_bound(s.drop_last());
    }
}

proof fn lemma_pass_bound(v: Seq<nat>, i: int)
    requires
        forall|j: int| 0 <= j < v.len() ==> #[trigger] v[j] <= 1000,
    ensures
        subtractive_pass(v, i).len() == v.len(),
        forall|j: int| 0 <= j < v.len() ==> #[trigger] subtractive_pass(v, i)[j] <= 1000,
    decreases v.len() - i,
{
    if !(i < 0 || i >= v.len() - 1) {
        let w = if v[i + 1] > v[i] {
            v.update(i + 1, (v[i + 1] - v[i]) as nat).update(i, 0nat)
        } else {
            v
        };
        assert(forall|j: int| 0 <= j < w.len() ==> #[trigger] w[j] <= 1000);
        lemma_pass_bound(w, i + 1);
    }
}

/// Read a numeral string subtractively; `None` when it has no numeral
/// character at all.
#[verifier::loop_isolation(false)]
pub fn roman_value(s: &Vec<char>) -> (r: Option<usize>)
    requires
        s@.len() * 1000 <= usize::MAX,
    ensures
        match r {
            Some(x) => roman_value_spec(s@) == Some(x as nat),
            None => roman_value_spec(s@) is None,
        },
{
    let mut vals: Vec<usize> = Vec::new();
    let mut i: usize = 0;
    proof {
        assert(s@.subrange(0, 0) =~= Seq::<char>::empty());
        assert(u_views(vals@) =~= roman_vals(s@.subrange(0, 0)));
    }
    while i < s.len()
        invariant
            i <= s@.len(),
            vals@.len() <= i,
            u_views(vals@) == roman_vals(s@.subrange(0, i as int)),
            forall|j: int| 0 <= j < vals@.len() ==> #[trigger] vals@[j] <= 1000,
        decreases s@.len() - i,
    {
        let ghost pre = s@.subrange(0, (i + 1) as int);
        proof {
            assert(pre.drop_last() =~= s@.subrange(0, i as int));
            assert(pre.last() == s@[i as int]);
        }
        let v = roman_char_val_exec(s[i]);
        let ghost old_vals = vals@;
        if v > 0 {
            vals.push(v);
            proof {
                assert(u_views(vals@) =~= u_views(old_vals).push(v as nat));
            }
        }
        proof {
            assert(u_views(vals@) =~= roman_vals(pre));
        }
        i += 1;
    }
    proof {
        assert(s@.subrange(0, s@.len() as int) =~= s@);
    }
    if vals.len() == 0 {
        return None;
    }
    let ghost orig = u_views(vals@);
    let n = vals.len();
    let mut j: usize = 0;
    proof {
        lemma_roman_vals_bound(s@);
    }
    while j + 1 < n
        invariant
            j <= n,
            n == vals@.len(),
            subtractive_pass(orig, 0) == subtractive_pass(u_views(vals@), j as int),
            forall|k: int| 0 <= k < vals@.len() ==> #[trigger] vals@[k] <= 1000,
        decreases n - j,
    {
        let ghost cur = u_views(vals@);
        if vals[j + 1] > vals[j] {
            let d = vals[j + 1] - vals[j];
            vals.set(j + 1, d);
            vals.set(j, 0);
            proof {
                assert(u_views(vals@) =~= cur.update(j + 1, (cur[j + 1] - cur[j as int]) as nat)
                    .update(j as int, 0nat));
            }
        } else {
            proof {
                assert(!(cur[j + 1] > cur[j as int]));
            }
        }
        j += 1;
    }
    let mut sum: usize = 0;
    let mut k: usize = 0;
    proof {
        lemma_pass_bound(orig, 0);
        assert(subtractive_pass(u_views(vals@), n as int - 1) == u_views(vals@));
        assert(u_views(vals@).subrange(0, 0) =~= Seq::<nat>::empty());
    }
    let ghost passed = u_views(vals@);
    while k < n
        invariant
            k <= n,
            n == vals@.len(),
            passed == u_views(vals@),
            forall|kk: int| 0 <= kk < vals@.len() ==> #[trigger] vals@[kk] <= 1000,
            n * 1000 <= usize::MAX,
            sum as nat == seq_sum(passed.subrange(0, k as int)),
            sum <= k * 1000,
        decreases n - k,
    {
        let ghost prefix = passed.subrange(0, (k + 1) as int);
        proof {
            assert(prefix.drop_last() =~= passed.subrange(0, k as int));
            assert(prefix.last() == passed[k as int]);
            assert((k + 1) * 1000 == k * 1000 + 1000) by (nonlinear_arith);
            assert(k * 1000 <= n * 1000) by (nonlinear_arith)
                requires 0 <= k && k < n;
        }
        sum = sum + vals[k];
        k += 1;
    }
    proof {
        assert(passed.subrange(0, n as int) =~= passed);
    }
    Some(sum)
}

/// The end of the run of flex-marked entries starting at `i`.
pub open spec fn run_end(flex: Seq<bool>, i: int) -> int
    decreases flex.len() - i,
{
    if i < 0 || i >= flex.len() || !flex[i] {
        i
    } else {
        run_end(flex, i + 1)
    }
}

proof fn lemma_run_end_bounds(flex: Seq<bool>, i: int)
    requires
        0 <= i <= flex.len(),
    ensures
        i <= run_end(flex, i) <= flex.len(),
        forall|j: int| i <= j < run_end(flex, i) ==> flex[j],
        run_end(flex, i) < flex.len() ==> !flex[run_end(flex, i)],
    decreases flex.len() - i,
{
    if i < flex.len() && flex[i] {
        lemma_run_end_bounds(flex, i + 1);
    }
}

/// The image groups the renderer lays out, as index ranges: two or more
/// adjacent flex-marked images form one group spanning their whole maximal
/// run; every other image stands alone.
pub open spec fn groups_from(flex: Seq<bool>, i: int) -> Seq<(int, int)>
    decreases flex.len() - i,
    via groups_from_decreases
{
    if i < 0 || i >= flex.len() {
        Seq::<(int, int)>::empty()
    } else if flex[i] && i + 1 < flex.len() && flex[i + 1] {
        seq![(i, run_end(flex, i))] + groups_from(flex, run_end(flex, i))
    } else {
        seq![(i, i + 1)] + groups_from(flex, i + 1)
    }
}

#[via_fn]
proof fn groups_from_decreases(flex: Seq<bool>, i: int) {
    if 0 <= i < flex.len() && flex[i] {
        lemma_run_end_bounds(flex, i);
        assert(run_end(flex, i) >= i + 1);
    }
}

pub open spec fn groups_spec(flex: Seq<bool>) -> Seq<(int, int)> {
    groups_from(flex, 0)
}

/// The flex flags of an image list.
pub open spec fn flex_flags(images: Seq<MonImage>) -> Seq<bool> {
    images.map_values(|i: MonImage| i.flex)
}

/// Group an entry's images for layout: each returned pair is the index
/// range of one group.
#[verifier::loop_isolation(false)]
pub fn flex_groups(images: &Vec<MonImage>) -> (r: Vec<(usize, usize)>)
    ensures
        r@.map_values(|p: (usize, usize)| (p.0 as int, p.1 as int)) == groups_spec(
            flex_flags(images@),
        ),
{
    let ghost flex = flex_flags(images@);
    let mut out: Vec<(usize, usize)> = Vec::new();
    let mut i: usize = 0;
    proof {
        assert(out@.map_values(|p: (usize, usize)| (p.0 as int, p.1 as int)) + groups_from(flex, 0)
            =~= groups_from(flex, 0));
    }
    while i < images.len()
        invariant
            i <= images@.len(),
            flex == flex_flags(images@),
            groups_spec(flex) == out@.map_values(|p: (usize, usize)| (p.0 as int, p.1 as int))
                + groups_from(flex, i as int),
        decreases images@.len() - i,
    {
        let ghost prev = out@.map_values(|p: (usize, usize)| (p.0 as int, p.1 as int));
        if images[i].flex && i + 1 < images.len() && images[i + 1].flex {
            let mut j: usize = i;
            while j < images.len() && images[j].flex
                invariant
                    i <= j <= images@.len(),
                    flex == flex_flags(images@),
                    forall|q: int| i <= q < j ==> flex[q],
                    run_end(flex, i as int) == run_end(flex, j as int),
                decreases images@.len() - j,
            {
                j += 1;
            }
            proof {
                assert(run_end(flex, j as int) == j as int);
            }
            out.push((i, j));
            proof {
                assert(out@.map_values(|p: (usize, usize)| (p.0 as int, p.1 as int)) =~= prev
                    + seq![(i as int, j as int)]);
                assert(groups_from(flex, i as int) == seq![(i as int, j as int)] + groups_from(
                    flex,
                    j as int,
                ));
                assert(prev + (seq![(i as int, j as int)] + groups_from(flex, j as int)) =~= (prev
                    + seq![(i as int, j as int)]) + groups_from(flex, j as int));
            }
            i = j;
        } else {
            out.push((i, i + 1));
            proof {
                assert(out@.map_values(|p: (usize, usize)| (p.0 as int, p.1 as int)) =~= prev
                    + seq![(i as int, i + 1 as int)]);
                assert(groups_from(flex, i as int) == seq![(i as int, i + 1)] + groups_from(
                    flex,
                    i + 1,
                ));
                assert(prev + (seq![(i as int, i + 1)] + groups_from(flex, i + 1)) =~= (prev
                    + seq![(i as int, i + 1)]) + groups_from(flex, i + 1));
            }
            i += 1;
        }
    }
    proof {
        assert(groups_from(flex, images@.len() as int) =~= Seq::<(int, int)>::empty());
        assert(out@.map_values(|p: (usize, usize)| (p.0 as int, p.1 as int)) + Seq::<
            (int, int),
        >::empty() =~= out@.map_values(|p: (usize, usize)| (p.0 as int, p.1 as int)));
    }
    out
}

/// Flex grouping is a partition: the groups cover the images in order
/// without gaps; a group of two or more spans a maximal run of flex-marked
/// images, never splitting it and never absorbing a neighbour that is not
/// flex-marked; and two adjacent flex-marked images always share a group.
pub proof fn lemma_flex_grouping(flex: Seq<bool>)
    ensures
        ({
            let gs = groups_spec(flex);
            &&& (gs.len() == 0 <==> flex.len() == 0)
            &&& (gs.len() > 0 ==> gs[0].0 == 0 && gs[gs.len() - 1].1 == flex.len())
            &&& forall|k: int| 0 <= k < gs.len() ==> #[trigger] gs[k].0 < gs[k].1 <= flex.len()
            &&& forall|k: int| 0 <= k < gs.len() - 1 ==> #[trigger] gs[k].1 == gs[k + 1].0
            &&& forall|k: int, j: int|
                0 <= k < gs.len() && (#[trigger] gs[k]).1 - gs[k].0 >= 2 && gs[k].0 <= j < gs[k].1
                    ==> #[trigger] flex[j]
            &&& forall|k: int|
                0 <= k < gs.len() && gs[k].1 - gs[k].0 >= 2 && #[trigger] gs[k].1 < flex.len()
                    ==> !flex[gs[k].1]
            &&& forall|j: int|
                0 <= j < flex.len() - 1 && #[trigger] flex[j] && flex[j + 1] ==> exists|k: int|
                    0 <= k < gs.len() && gs[k].0 <= j && j + 1 < gs[k].1
        }),
{
    lemma_groups_from(flex, 0);
}

proof fn lemma_groups_from(flex: Seq<bool>, i: int)
    requires
        0 <= i <= flex.len(),
    ensures
        ({
            let gs = groups_from(flex, i);
            &&& (gs.len() == 0 <==> i == flex.len())
            &&& (gs.len() > 0 ==> gs[0].0 == i && gs[gs.len() - 1].1 == flex.len())
            &&& forall|k: int| 0 <= k < gs.len() ==> #[trigger] gs[k].0 < gs[k].1 <= flex.len()
            &&& forall|k: int| 0 <= k < gs.len() - 1 ==> #[trigger] gs[k].1 == gs[k + 1].0
            &&& forall|k: int, j: int|
                0 <= k < gs.len() && (#[trigger] gs[k]).1 - gs[k].0 >= 2 && gs[k].0 <= j < gs[k].1
                    ==> #[trigger] flex[j]
            &&& forall|k: int|
                0 <= k < gs.len() && gs[k].1 - gs[k].0 >= 2 && #[trigger] gs[k].1 < flex.len()
                    ==> !flex[gs[k].1]
            &&& forall|j: int|
                i <= j < flex.len() - 1 && #[trigger] flex[j] && flex[j + 1] ==> exists|k: int|
                    0 <= k < gs.len() && gs[k].0 <= j && j + 1 < gs[k].1
        }),
    decreases flex.len() - i,
{
    if i == flex.len() {
    } else if flex[i] && i + 1 < flex.len() && flex[i + 1] {
        lemma_run_end_bounds(flex, i);
        let e = run_end(flex, i);
        lemma_groups_from(flex, e);
        let gs = groups_from(flex, i);
        let rest = groups_from(flex, e);
        assert(gs == seq![(i, e)] + rest);
        assert(gs[0] == (i, e));
        assert(forall|k: int| 1 <= k < gs.len() ==> gs[k] == rest[k - 1]);
        assert(e >= i + 2);
        assert forall|j: int|
            i <= j < flex.len() - 1 && #[trigger] flex[j] && flex[j + 1] implies exists|k: int|
            0 <= k < gs.len() && gs[k].0 <= j && j + 1 < gs[k].1 by {
            if j + 1 < e {
                assert(gs[0].0 <= j && j + 1 < gs[0].1);
            } else if j >= e {
                let kk = choose|k: int| 0 <= k < rest.len() && rest[k].0 <= j && j + 1 < rest[k].1;
                assert(gs[kk + 1].0 <= j && j + 1 < gs[kk + 1].1);
            } else {
                assert(j + 1 == e || j == e - 1 || (j < e && j + 1 >= e));
                assert(j == e - 1);
                assert(flex[j] && flex[j + 1]);
                assert(e < flex.len() ==> !flex[e]);
                assert(j + 1 == e);
                assert(j + 1 < flex.len());
                assert(!flex[j + 1]);
                assert(false);
            }
        }
    } else {
        lemma_groups_from(flex, i + 1);
        let gs = groups_from(flex, i);
        let rest = groups_from(flex, i + 1);
        assert(gs == seq![(i, i + 1)] + rest);
        assert(gs[0] == (i, i + 1));
        assert(forall|k: int| 1 <= k < gs.len() ==> gs[k] == rest[k - 1]);
        assert forall|j: int|
            i <= j < flex.len() - 1 && #[trigger] flex[j] && flex[j + 1] implies exists|k: int|
            0 <= k < gs.len() && gs[k].0 <= j && j + 1 < gs[k].1 by {
            if j >= i + 1 {
                let kk = choose|k: int| 0 <= k < rest.len() && rest[k].0 <= j && j + 1 < rest[k].1;
                assert(gs[kk + 1].0 <= j && j + 1 < gs[kk + 1].1);
            } else {
                assert(j == i);
                assert(flex[i] && flex[i + 1] && i + 1 < flex.len());
                assert(false);
            }
        }
    }
}

} // verus!
