//! Catalog identifiers and the read-only index consumed by extraction.

use vstd::prelude::*;
use crate::text;

verus! {

/// A catalog identifier: a strictly positive entry number.
#[derive(Debug, Clone, Copy, PartialEq, Eq, Structural, PartialOrd, Ord, Hash)]
pub struct DexId(pub u32);

/// What parsing an identifier string yields: after an optional leading `#`,
/// a decimal numeral with a strictly positive 32-bit value.
pub open spec fn parse_dex_spec(s: Seq<char>) -> Option<DexId> {
    let t = if s.len() > 0 && s[0] == '#' {
        s.drop_first()
    } else {
        s
    };
    match text::parse_u32_spec(t) {
        Some(v) => if v >= 1 {
            Some(DexId(v))
        } else {
            None
        },
        None => None,
    }
}

/// The fixed-width rendering of an identifier: `#` followed by the decimal
/// numeral, zero-padded to at least four digits.
pub open spec fn format_dex_spec(id: DexId) -> Seq<char> {
    seq!['#'] + pad_digits_spec(text::dec_digits(id.0 as nat))
}

/// Zero-pad a numeral on the left to at least four digits.
pub open spec fn pad_digits_spec(d: Seq<char>) -> Seq<char>
    decreases 4 - d.len(),
{
    if d.len() >= 4 {
        d
    } else {
        pad_digits_spec(seq!['0'] + d)
    }
}

impl DexId {
    /// A valid identifier is strictly positive.
    pub open spec fn well_formed(self) -> bool {
        self.0 >= 1
    }

    /// The previous identifier, if one exists; there is none below 1.
    pub fn prev(&self) -> (r: Option<DexId>)
        ensures
            self.0 > 1 ==> r == Some(DexId((self.0 - 1) as u32)),
            self.0 <= 1 ==> r is None,
    {
        if self.0 > 1 {
            Some(DexId(self.0 - 1))
        } else {
            None
        }
    }

    /// The next identifier.
    pub fn next(&self) -> (r: DexId)
        requires
            self.0 < u32::MAX,
        ensures
            r == DexId((self.0 + 1) as u32),
    {
        DexId(self.0 + 1)
    }

    /// Parse an identifier from characters.
    pub fn parse_chars(s: &Vec<char>) -> (r: Option<DexId>)
        ensures
            r == parse_dex_spec(s@),
            r matches Some(id) ==> id.well_formed(),
    {
        let t = if s.len() > 0 && s[0] == '#' {
            text::sub_vec(s, 1, s.len())
        } else {
            text::sub_vec(s, 0, s.len())
        };
        proof {
            if s@.len() > 0 && s@[0] == '#' {
                assert(t@ =~= s@.drop_first());
            } else {
                assert(t@ =~= s@);
            }
        }
        match text::parse_u32(&t) {
            Some(v) => if v >= 1 {
                Some(DexId(v))
            } else {
                None
            },
            None => None,
        }
    }

    /// Render the identifier as `#` plus a zero-padded numeral.
    pub fn format_chars(&self) -> (r: Vec<char>)
        ensures
            r@ == format_dex_spec(*self),
    {
        let mut digits = text::u32_digits(self.0);
        while digits.len() < 4
            invariant
                digits@.len() >= 1,
                pad_digits_spec(digits@) == pad_digits_spec(text::dec_digits(self.0 as nat)),
            decreases 4 - digits@.len(),
        {
            let ghost d0 = digits@;
            digits.insert(0, '0');
            proof {
                assert(digits@ =~= seq!['0'] + d0);
            }
        }
        let mut r: Vec<char> = Vec::new();
        r.push('#');
        let mut i: usize = 0;
        while i < digits.len()
            invariant
                i <= digits@.len(),
                r@ == seq!['#'] + digits@.subrange(0, i as int),
            decreases digits@.len() - i,
        {
            r.push(digits[i]);
            proof {
                assert(seq!['#'] + digits@.subrange(0, (i + 1) as int) =~= (seq!['#']
                    + digits@.subrange(0, i as int)).push(digits@[i as int]));
            }
            i += 1;
        }
        proof {
            assert(digits@.subrange(0, digits@.len() as int) =~= digits@);
            assert(pad_digits_spec(digits@) == digits@);
        }
        r
    }
}

/// Padding only prepends zeros, so a numeral's value and digit-ness survive it.
proof fn lemma_pad_digits(d: Seq<char>)
    ensures
        text::digits_val(pad_digits_spec(d)) == text::digits_val(d),
        text::all_digits(d) ==> text::all_digits(pad_digits_spec(d)),
        pad_digits_spec(d).len() >= d.len(),
        d.len() >= 1 ==> pad_digits_spec(d).len() >= 1,
    decreases 4 - d.len(),
{
    if d.len() >= 4 {
    } else {
        let z = seq!['0'] + d;
        text::lemma_leading_zero(d);
        lemma_pad_digits(z);
        assert(text::all_digits(d) ==> text::all_digits(z)) by {
            assert(z[0] == '0');
            assert(forall|i: int| 0 < i < z.len() ==> z[i] == d[i - 1]);
        }
    }
}

/// Parsing a formatted identifier yields the identifier again.
pub proof fn lemma_parse_format_roundtrip(id: DexId)
    requires
        id.well_formed(),
    ensures
        parse_dex_spec(format_dex_spec(id)) == Some(id),
{
    let digits = text::dec_digits(id.0 as nat);
    let padded = pad_digits_spec(digits);
    let s = seq!['#'] + padded;
    text::lemma_dec_digits_roundtrip(id.0 as nat);
    lemma_pad_digits(digits);
    assert(s[0] == '#');
    assert(s.drop_first() =~= padded);
    assert(text::digits_val(padded) == id.0 as nat);
    assert(text::parse_u32_spec(padded) == Some(id.0));
}

/// The predecessor of a successor is the identifier itself.
pub proof fn lemma_prev_next_roundtrip(id: DexId)
    requires
        id.well_formed(),
        id.0 < u32::MAX,
    ensures
        DexId((id.0 + 1) as u32).0 > 1,
        DexId(((id.0 + 1) as u32 - 1) as u32) == id,
{
}

/// The read-only index: the id-to-page mapping and the generation groups.
///
/// The page list is sorted strictly by identifier, every identifier is
/// well formed, and every identifier in a generation group also occurs in
/// the page list; generation groups are 1-indexed by position.
#[derive(Debug)]
pub struct Index {
    pub pokemon_pages: Vec<(DexId, String)>,
    pub pokemon_gens: Vec<Vec<DexId>>,
}

impl Index {
    pub open spec fn pages_well_formed(self) -> bool {
        &&& forall|i: int, j: int|
            0 <= i < j < self.pokemon_pages@.len() ==> #[trigger] self.pokemon_pages@[i].0.0
                < #[trigger] self.pokemon_pages@[j].0.0
        &&& forall|i: int|
            0 <= i < self.pokemon_pages@.len() ==> (#[trigger] self.pokemon_pages@[i].0).well_formed()
    }

    pub open spec fn spec_has_id(self, id: DexId) -> bool {
        exists|i: int| 0 <= i < self.pokemon_pages@.len() && #[trigger] self.pokemon_pages@[i].0 == id
    }

    pub open spec fn well_formed(self) -> bool {
        &&& self.pages_well_formed()
        &&& forall|g: int, k: int|
            0 <= g < self.pokemon_gens@.len() && 0 <= k < self.pokemon_gens@[g]@.len()
                ==> self.spec_has_id(#[trigger] self.pokemon_gens@[g]@[k])
    }

    /// The identifier of the first page whose URL equals `url`, if any.
    pub open spec fn spec_lookup_by_url(self, url: Seq<char>) -> Option<DexId> {
        lookup_pages_spec(self.pokemon_pages@, url)
    }

    /// Check the documented invariant of a freshly built index: page
    /// identifiers strictly ascending and well formed, and every identifier
    /// of a generation group present among the pages.
    #[verifier::loop_isolation(false)]
    pub fn check_well_formed(&self) -> (r: bool)
        ensures
            r == self.well_formed(),
    {
        let n = self.pokemon_pages.len();
        let mut i: usize = 0;
        while i < n
            invariant
                i <= n,
                n == self.pokemon_pages@.len(),
                forall|a: int, b: int|
                    0 <= a < b < i ==> #[trigger] self.pokemon_pages@[a].0.0
                        < #[trigger] self.pokemon_pages@[b].0.0,
                forall|a: int|
                    0 <= a < i ==> (#[trigger] self.pokemon_pages@[a].0).well_formed(),
            decreases n - i,
        {
            if self.pokemon_pages[i].0.0 < 1 {
                return false;
            }
            if i > 0 && self.pokemon_pages[i - 1].0.0 >= self.pokemon_pages[i].0.0 {
                return false;
            }
            proof {
                assert(forall|a: int, b: int|
                    0 <= a < b < i + 1 ==> #[trigger] self.pokemon_pages@[a].0.0
                        < #[trigger] self.pokemon_pages@[b].0.0) by {
                    assert(forall|a: int|
                        0 <= a < i ==> #[trigger] self.pokemon_pages@[a].0.0
                            <= self.pokemon_pages@[i - 1].0.0 || a == i as int);
                };
            }
            i += 1;
        }
        let mut g: usize = 0;
        while g < self.pokemon_gens.len()
            invariant
                g <= self.pokemon_gens@.len(),
                self.pages_well_formed(),
                forall|gg: int, k: int|
                    0 <= gg < g && 0 <= k < self.pokemon_gens@[gg]@.len() ==> self.spec_has_id(
                        #[trigger] self.pokemon_gens@[gg]@[k],
                    ),
            decreases self.pokemon_gens@.len() - g,
        {
            let group: &Vec<DexId> = &self.pokemon_gens[g];
            let mut k: usize = 0;
            while k < group.len()
                invariant
                    k <= group@.len(),
                    group == &self.pokemon_gens@[g as int],
                    forall|kk: int|
                        0 <= kk < k ==> self.spec_has_id(#[trigger] group@[kk]),
                decreases group@.len() - k,
            {
                let id = group[k];
                let mut found: bool = false;
                let mut p: usize = 0;
                while p < self.pokemon_pages.len()
                    invariant
                        p <= self.pokemon_pages@.len(),
                        found ==> self.spec_has_id(id),
                        !found ==> forall|a: int|
                            0 <= a < p ==> #[trigger] self.pokemon_pages@[a].0 != id,
                    decreases self.pokemon_pages@.len() - p,
                {
                    if self.pokemon_pages[p].0 == id {
                        found = true;
                        p = self.pokemon_pages.len();
                    } else {
                        p += 1;
                    }
                }
                if !found {
                    return false;
                }
                k += 1;
            }
            g += 1;
        }
        true
    }

    /// Find the entry whose page URL is exactly `url`.
    pub fn lookup_by_url(&self, url: &Vec<char>) -> (r: Option<DexId>)
        ensures
            r == self.spec_lookup_by_url(url@),
    {
        let mut i: usize = 0;
        proof {
            assert(self.pokemon_pages@.subrange(0, self.pokemon_pages@.len() as int)
                =~= self.pokemon_pages@);
        }
        while i < self.pokemon_pages.len()
            invariant
                i <= self.pokemon_pages@.len(),
                lookup_pages_spec(self.pokemon_pages@, url@) == lookup_pages_spec(
                    self.pokemon_pages@.subrange(i as int, self.pokemon_pages@.len() as int),
                    url@,
                ),
            decreases self.pokemon_pages@.len() - i,
        {
            let ghost rest = self.pokemon_pages@.subrange(i as int, self.pokemon_pages@.len() as int);
            let page: &String = &self.pokemon_pages[i].1;
            let pv = crate::text::str_to_chars(page.as_str());
            if crate::text::chars_eq(&pv, url) {
                return Some(self.pokemon_pages[i].0);
            }
            proof {
                assert(rest.drop_first() =~= self.pokemon_pages@.subrange(
                    (i + 1) as int,
                    self.pokemon_pages@.len() as int,
                ));
            }
            i += 1;
        }
        proof {
            assert(self.pokemon_pages@.subrange(
                self.pokemon_pages@.len() as int,
                self.pokemon_pages@.len() as int,
            ) =~= Seq::<(DexId, String)>::empty());
        }
        None
    }
}

/// The identifier of the first pair whose page string equals `url`.
pub open spec fn lookup_pages_spec(pages: Seq<(DexId, String)>, url: Seq<char>) -> Option<DexId>
    decreases pages.len(),
{
    if pages.len() == 0 {
        None
    } else if pages[0].1@ == url {
        Some(pages[0].0)
    } else {
        lookup_pages_spec(pages.drop_first(), url)
    }
}

} // verus!
