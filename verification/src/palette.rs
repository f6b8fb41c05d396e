//! The distinct colours of an image and the palette index assigned to each of them.

use crate::color::{luminance_index, map_2bit, RGB};
use vstd::prelude::*;

verus! {

/// Whether the colours of `s` stand in strictly ascending order by `(r, g, b)`.
pub open spec fn strictly_ascending(s: Seq<RGB>) -> bool {
    forall|i: int, j: int| 0 <= i < j < s.len() ==> (#[trigger] s[i]).precedes(#[trigger] s[j])
}

/// A sequence in strictly ascending order holds no colour twice, so it is as long as
/// the set of its colours is large.
pub proof fn lemma_ascending_distinct(s: Seq<RGB>)
    requires
        strictly_ascending(s),
    ensures
        s.no_duplicates(),
        s.to_set().len() == s.len(),
        s.to_set().finite(),
{
    assert forall|i: int, j: int| 0 <= i < s.len() && 0 <= j < s.len() && i != j implies s[i]
        != s[j] by {
        if i < j {
            assert(s[i].precedes(s[j]));
        } else {
            assert(s[j].precedes(s[i]));
        }
    }
    s.unique_seq_to_set();
    vstd::seq_lib::seq_to_set_is_finite(s);
}

/// Two sequences in strictly ascending order that hold the same colours are equal.
pub proof fn lemma_ascending_unique(a: Seq<RGB>, b: Seq<RGB>)
    requires
        strictly_ascending(a),
        strictly_ascending(b),
        a.to_set() == b.to_set(),
    ensures
        a == b,
    decreases a.len(),
{
    lemma_ascending_distinct(a);
    lemma_ascending_distinct(b);
    if a.len() == 0 {
        assert(a =~= b);
    } else {
        let la = a.last();
        let lb = b.last();
        assert(a.to_set().contains(la));
        assert(b.contains(la));
        assert(b.to_set().contains(lb));
        assert(a.contains(lb));
        let i = choose|i: int| 0 <= i < b.len() && b[i] == la;
        let j = choose|j: int| 0 <= j < a.len() && a[j] == lb;
        if i < b.len() - 1 {
            assert(b[i].precedes(b[b.len() - 1]));
        }
        if j < a.len() - 1 {
            assert(a[j].precedes(a[a.len() - 1]));
        }
        assert(la == lb);
        let a0 = a.drop_last();
        let b0 = b.drop_last();
        assert forall|c: RGB| a0.to_set().contains(c) == b0.to_set().contains(c) by {
            if a0.contains(c) {
                let k = choose|k: int| 0 <= k < a0.len() && a0[k] == c;
                assert(a[k] == c);
                assert(a[k].precedes(a[a.len() - 1]));
                assert(a.to_set().contains(c));
                assert(b.contains(c));
                let m = choose|m: int| 0 <= m < b.len() && b[m] == c;
                assert(b0[m] == c);
            }
            if b0.contains(c) {
                let k = choose|k: int| 0 <= k < b0.len() && b0[k] == c;
                assert(b[k] == c);
                assert(b[k].precedes(b[b.len() - 1]));
                assert(b.to_set().contains(c));
                assert(a.contains(c));
                let m = choose|m: int| 0 <= m < a.len() && a[m] == c;
                assert(a0[m] == c);
            }
        }
        assert(a0.to_set() =~= b0.to_set());
        assert(strictly_ascending(a0)) by {
            assert forall|x: int, y: int| 0 <= x < y < a0.len() implies (#[trigger] a0[x]).precedes(
                #[trigger] a0[y],
            ) by {
                assert(a[x].precedes(a[y]));
            }
        }
        assert(strictly_ascending(b0)) by {
            assert forall|x: int, y: int| 0 <= x < y < b0.len() implies (#[trigger] b0[x]).precedes(
                #[trigger] b0[y],
            ) by {
                assert(b[x].precedes(b[y]));
            }
        }
        lemma_ascending_unique(a0, b0);
        assert(a =~= a0.push(la));
        assert(b =~= b0.push(lb));
    }
}

/// A set of colours that hands them out in ascending order by `(r, g, b)`.
pub struct ColorSet {
    colors: Vec<RGB>,
}

impl View for ColorSet {
    type V = Seq<RGB>;

    /// The colours of the set in ascending order.
    closed spec fn view(&self) -> Seq<RGB> {
        self.colors@
    }
}

impl ColorSet {
    /// The invariant of the type: the colours are kept in strictly ascending order, so
    /// none occurs twice.
    pub open spec fn wf(&self) -> bool {
        strictly_ascending(self@)
    }

    /// Whether `c` is in the set.
    pub open spec fn contains(&self, c: RGB) -> bool {
        self@.contains(c)
    }

    /// The empty set.
    pub fn new() -> (res: ColorSet)
        ensures
            res.wf(),
            res@ == Seq::<RGB>::empty(),
    {
        ColorSet { colors: Vec::new() }
    }

    /// The number of colours in the set.
    pub fn len(&self) -> (res: usize)
        ensures
            res == self@.len(),
    {
        self.colors.len()
    }

    /// The colour at position `i` of the ascending order.
    pub fn get(&self, i: usize) -> (res: RGB)
        requires
            i < self@.len(),
        ensures
            res == self@[i as int],
    {
        self.colors[i]
    }

    /// The colours of the set in ascending order.
    pub fn to_vec(&self) -> (res: Vec<RGB>)
        ensures
            res@ == self@,
    {
        let mut out: Vec<RGB> = Vec::new();
        let mut i: usize = 0;
        while i < self.colors.len()
            invariant
                i <= self.colors.len(),
                out@ == self.colors@.subrange(0, i as int),
            decreases self.colors.len() - i,
        {
            out.push(self.colors[i]);
            assert(out@ =~= self.colors@.subrange(0, i + 1));
            i += 1;
        }
        assert(out@ =~= self.colors@);
        out
    }

    /// Adds `c` to the set. Returns whether `c` was new to it; a colour that the set
    /// already holds leaves it unchanged.
    pub fn insert(&mut self, c: RGB) -> (res: bool)
        requires
            old(self).wf(),
        ensures
            final(self).wf(),
            res == !old(self).contains(c),
            final(self)@.to_set() == old(self)@.to_set().insert(c),
            !res ==> final(self)@ == old(self)@,
            res ==> final(self)@.len() == old(self)@.len() + 1,
    {
        let mut pos: usize = 0;
        while pos < self.colors.len() && self.colors[pos].is_before(&c)
            invariant
                pos <= self.colors.len(),
                self.colors@ == old(self).colors@,
                forall|k: int| 0 <= k < pos ==> (#[trigger] self.colors@[k]).precedes(c),
            decreases self.colors.len() - pos,
        {
            pos += 1;
        }
        let ghost before = self.colors@;
        if pos < self.colors.len() && self.colors[pos] == c {
            assert(before.to_set() =~= before.to_set().insert(c));
            return false;
        }
        proof {
            assert(!before.contains(c)) by {
                if before.contains(c) {
                    let k = choose|k: int| 0 <= k < before.len() && before[k] == c;
                    if k < pos {
                        assert(before[k].precedes(c));
                    } else if k > pos {
                        assert(before[pos as int].precedes(before[k]));
                    }
                }
            }
        }
        self.colors.insert(pos, c);
        proof {
            let after = self.colors@;
            assert forall|i: int, j: int| 0 <= i < j < after.len() implies (#[trigger] after[i]).precedes(
                #[trigger] after[j],
            ) by {
                if j < pos {
                    assert(before[i].precedes(before[j]));
                } else if j == pos {
                    assert(before[i].precedes(c));
                } else if i < pos {
                    assert(before[i].precedes(before[j - 1]));
                } else if i == pos {
                    if j - 1 > pos {
                        assert(before[pos as int].precedes(before[j - 1]));
                    }
                } else {
                    assert(before[i - 1].precedes(before[j - 1]));
                }
            }
            assert forall|x: RGB| after.to_set().contains(x) == before.to_set().insert(c).contains(
                x,
            ) by {
                if after.contains(x) {
                    let k = choose|k: int| 0 <= k < after.len() && after[k] == x;
                    if k < pos {
                        assert(before[k] == x);
                    } else if k > pos {
                        assert(before[k - 1] == x);
                    }
                }
                if before.contains(x) {
                    let k = choose|k: int| 0 <= k < before.len() && before[k] == x;
                    if k < pos {
                        assert(after[k] == x);
                    } else {
                        assert(after[k + 1] == x);
                    }
                }
                if x == c {
                    assert(after[pos as int] == c);
                }
            }
            assert(after.to_set() =~= before.to_set().insert(c));
        }
        true
    }
}

/// The palette map: the palette index, between 0 and 3, of each colour that it holds.
pub struct Palette {
    colors: Vec<RGB>,
    numbers: Vec<u8>,
}

impl View for Palette {
    type V = Map<RGB, u8>;

    /// The map from each colour of the palette to its index.
    closed spec fn view(&self) -> Map<RGB, u8> {
        Map::new(
            |c: RGB| self.colors@.contains(c),
            |c: RGB| self.numbers@[self.colors@.index_of(c)],
        )
    }
}

impl Palette {
    /// The invariant of the type: every colour has exactly one entry, and every index
    /// fits in two bits.
    pub closed spec fn wf(&self) -> bool {
        &&& self.colors@.len() == self.numbers@.len()
        &&& strictly_ascending(self.colors@)
        &&& forall|i: int| 0 <= i < self.numbers@.len() ==> #[trigger] self.numbers@[i] <= 3
    }

    /// Every index of a well-formed palette is between 0 and 3, and the palette has as
    /// many entries as it holds colours.
    pub proof fn lemma_wf(&self)
        requires
            self.wf(),
        ensures
            self@.dom().finite(),
            forall|c: RGB| self@.contains_key(c) ==> #[trigger] self@[c] <= 3,
    {
        assert(self@.dom() =~= self.colors@.to_set());
        vstd::seq_lib::seq_to_set_is_finite(self.colors@);
        assert forall|c: RGB| self@.contains_key(c) implies #[trigger] self@[c] <= 3 by {
            self.colors@.index_of_first_ensures(c);
        }
    }

    /// The number of colours that the palette holds.
    pub fn len(&self) -> (res: usize)
        requires
            self.wf(),
        ensures
            res == self@.dom().len(),
    {
        proof {
            assert(self@.dom() =~= self.colors@.to_set());
            lemma_ascending_distinct(self.colors@);
        }
        self.colors.len()
    }

    /// The index of `c`, or `None` where the palette does not hold `c`.
    pub fn lookup(&self, c: &RGB) -> (res: Option<u8>)
        requires
            self.wf(),
        ensures
            res == (if self@.contains_key(*c) {
                Some(self@[*c])
            } else {
                None::<u8>
            }),
    {
        let mut i: usize = 0;
        while i < self.colors.len()
            invariant
                i <= self.colors.len(),
                self.wf(),
                forall|k: int| 0 <= k < i ==> self.colors@[k] != *c,
            decreases self.colors.len() - i,
        {
            if self.colors[i] == *c {
                proof {
                    lemma_ascending_distinct(self.colors@);
                    self.colors@.index_of_first_ensures(*c);
                    assert(self.colors@.index_of(*c) == i);
                }
                return Some(self.numbers[i]);
            }
            i += 1;
        }
        assert(!self.colors@.contains(*c));
        None
    }
}

/// The palette of the luminance policy for the colours of `unique_colors`: each colour
/// gets the index that the sum of its channels gives, whatever other colours there are.
pub fn rgbs_to_color_number(unique_colors: &ColorSet) -> (res: Palette)
    requires
        unique_colors.wf(),
    ensures
        res.wf(),
        res@.dom() == unique_colors@.to_set(),
        forall|c: RGB| res@.contains_key(c) ==> #[trigger] res@[c] == luminance_index(c.channel_sum()),
{
    let mut colors: Vec<RGB> = Vec::new();
    let mut numbers: Vec<u8> = Vec::new();
    let mut i: usize = 0;
    while i < unique_colors.len()
        invariant
            i <= unique_colors@.len(),
            colors@ == unique_colors@.subrange(0, i as int),
            numbers@.len() == i,
            forall|k: int| 0 <= k < i ==> #[trigger] numbers@[k] == luminance_index(
                unique_colors@[k].channel_sum(),
            ),
        decreases unique_colors@.len() - i,
    {
        let rgb = unique_colors.get(i);
        colors.push(rgb);
        numbers.push(map_2bit(&rgb));
        assert(colors@ =~= unique_colors@.subrange(0, i + 1));
        i += 1;
    }
    assert(colors@ =~= unique_colors@);
    let res = Palette { colors, numbers };
    proof {
        assert(res@.dom() =~= unique_colors@.to_set());
        lemma_ascending_distinct(unique_colors@);
        assert forall|c: RGB| res@.contains_key(c) implies #[trigger] res@[c] == luminance_index(
            c.channel_sum(),
        ) by {
            res.colors@.index_of_first_ensures(c);
        }
    }
    res
}

/// The palette of the enumeration policy for the colours of `unique_colors`: the
/// colour at position `i` of the ascending order gets index `i`.
pub fn enumerate_color_numbers(unique_colors: &ColorSet) -> (res: Palette)
    requires
        unique_colors.wf(),
        unique_colors@.len() <= 4,
    ensures
        res.wf(),
        res@.dom() == unique_colors@.to_set(),
        forall|i: int| 0 <= i < unique_colors@.len() ==> #[trigger] res@[unique_colors@[i]] == i,
{
    let mut colors: Vec<RGB> = Vec::new();
    let mut numbers: Vec<u8> = Vec::new();
    let mut i: usize = 0;
    while i < unique_colors.len()
        invariant
            i <= unique_colors@.len(),
            unique_colors@.len() <= 4,
            colors@ == unique_colors@.subrange(0, i as int),
            numbers@.len() == i,
            forall|k: int| 0 <= k < i ==> #[trigger] numbers@[k] == k,
        decreases unique_colors@.len() - i,
    {
        let rgb = unique_colors.get(i);
        colors.push(rgb);
        numbers.push(i as u8);
        assert(colors@ =~= unique_colors@.subrange(0, i + 1));
        i += 1;
    }
    assert(colors@ =~= unique_colors@);
    let res = Palette { colors, numbers };
    proof {
        assert(res@.dom() =~= unique_colors@.to_set());
        lemma_ascending_distinct(unique_colors@);
        assert forall|i: int| 0 <= i < unique_colors@.len() implies #[trigger] res@[unique_colors@[i]]
            == i by {
            res.colors@.index_of_first_ensures(unique_colors@[i]);
        }
    }
    res
}

/// A palette has at most four distinct index values, however many colours it holds.
pub proof fn lemma_at_most_four_indices(palette: Palette)
    requires
        palette.wf(),
    ensures
        palette@.values().finite(),
        palette@.values().len() <= 4,
{
    let all: Set<u8> = set![0u8, 1u8, 2u8, 3u8];
    palette.lemma_wf();
    assert forall|v: u8| palette@.values().contains(v) implies all.contains(v) by {
        let c = choose|c: RGB| palette@.contains_key(c) && palette@[c] == v;
        assert(palette@[c] <= 3);
    }
    assert(palette@.values().subset_of(all));
    vstd::set_lib::lemma_len_subset(palette@.values(), all);
    assert(all.len() == 4) by {
        assert(all =~= Set::<u8>::empty().insert(0u8).insert(1u8).insert(2u8).insert(3u8));
    }
}

} // verus!
