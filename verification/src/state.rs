//! The state model: a scale is a rotational position (`index`, cyclic over 12)
//! together with a kind (`Minor` / `Major`). The 24 possible scales form a
//! closed, finite space, enumerated once by [`make_nodes`].

use vstd::prelude::*;

verus! {

/// One of the two mutually exclusive categories a scale can have.
#[derive(Copy, Clone, PartialEq, Eq, Structural, Debug, Hash)]
pub enum ScaleKind {
    Minor,
    Major,
}

impl ScaleKind {
    /// The other category.
    pub open spec fn spec_swap(self) -> ScaleKind {
        match self {
            ScaleKind::Minor => ScaleKind::Major,
            ScaleKind::Major => ScaleKind::Minor,
        }
    }

    /// Toggle the category.
    pub fn swap(self) -> (r: Self)
        ensures
            r == self.spec_swap(),
    {
        match self {
            ScaleKind::Minor => ScaleKind::Major,
            ScaleKind::Major => ScaleKind::Minor,
        }
    }
}

/// One identity in the 24-element space: a cyclic index in `[0, 12)` and a kind.
#[derive(Copy, Clone, PartialEq, Eq, Structural, Debug, Hash)]
pub struct Scale {
    pub index: usize,
    pub kind: ScaleKind,
}

/// The modulus of the cyclic index range.
pub const INDEX_COUNT: usize = 12;

/// Nonnegative remainder of `n` modulo `m`: the value in `[0, m)` congruent to `n`.
pub open spec fn wrap_index(n: int, m: int) -> int
    recommends
        m > 0,
{
    ((n % m) + m) % m
}

/// Remainder normalized to `[0, modulus)`, so that negative inputs wrap correctly.
pub fn mod_cyclic(num: isize, modulus: usize) -> (r: isize)
    requires
        1 <= modulus <= 0x3FFF_FFFF,
    ensures
        r == wrap_index(num as int, modulus as int),
        0 <= r < modulus,
{
    let m: isize = modulus as isize;
    let t: isize = num % m;
    proof {
        broadcast use vstd::arithmetic::div_mod::group_mod_properties;

        let n = num as int;
        let mi = m as int;
        lemma_wrap_is_mod(n, mi);
        if n < 0 {
            vstd::arithmetic::div_mod::lemma_fundamental_div_mod(-n, mi);
            let q = (-n) / mi;
            let s = (-n) % mi;
            if s == 0 {
                assert(n == (-q) * mi + 0) by (nonlinear_arith)
                    requires
                        -n == mi * q + s,
                        s == 0,
                ;
                vstd::arithmetic::div_mod::lemma_fundamental_div_mod_converse_mod(n, mi, -q, 0);
            } else {
                assert(n == (-q - 1) * mi + (mi - s)) by (nonlinear_arith)
                    requires
                        -n == mi * q + s,
                ;
                vstd::arithmetic::div_mod::lemma_fundamental_div_mod_converse_mod(
                    n,
                    mi,
                    -q - 1,
                    mi - s,
                );
            }
        }
    }
    let u: isize = t + m;
    let r: isize = u % m;
    proof {
        broadcast use vstd::arithmetic::div_mod::group_mod_properties;

        vstd::arithmetic::div_mod::lemma_mod_add_multiples_vanish(num as int % (m as int), m as int);
    }
    r
}

/// The two-step normalization `((x % m) + m) % m` equals the Euclidean remainder.
proof fn lemma_wrap_is_mod(x: int, m: int)
    requires
        m > 0,
    ensures
        wrap_index(x, m) == x % m,
{
    broadcast use vstd::arithmetic::div_mod::group_mod_properties;

    vstd::arithmetic::div_mod::lemma_mod_add_multiples_vanish(x % m, m);
}

impl Scale {
    /// A scale is well formed when its index lies in the cyclic range.
    pub open spec fn wf(self) -> bool {
        self.index < INDEX_COUNT
    }

    /// The same position in the other category.
    pub open spec fn spec_swap_kind(self) -> Scale {
        Scale { index: self.index, kind: self.kind.spec_swap() }
    }

    /// Toggle the kind, keeping the index.
    pub fn swap_kind(self) -> (r: Self)
        ensures
            r == self.spec_swap_kind(),
    {
        Scale { kind: self.kind.swap(), index: self.index }
    }

    /// The scale whose index is advanced by `amount` modulo 12, kind unchanged.
    pub open spec fn spec_change_index(self, amount: int) -> Scale {
        Scale {
            index: wrap_index(self.index + amount, INDEX_COUNT as int) as usize,
            kind: self.kind,
        }
    }

    /// Advance the index by `amount` (any integer), wrapping to `[0, 12)`.
    pub fn change_index(self, amount: isize) -> (r: Self)
        requires
            self.wf(),
        ensures
            r == self.spec_change_index(amount as int),
            r.wf(),
    {
        let a: isize = mod_cyclic(amount, INDEX_COUNT);
        let idx: isize = mod_cyclic(self.index as isize + a, INDEX_COUNT);
        proof {
            lemma_wrap_index_add_reduced(self.index as int, amount as int, INDEX_COUNT as int);
        }
        Scale { index: idx as usize, kind: self.kind }
    }
}

/// Reducing one addend modulo `m` before adding does not change the wrapped sum.
proof fn lemma_wrap_index_add_reduced(i: int, a: int, m: int)
    requires
        m > 0,
    ensures
        wrap_index(i + wrap_index(a, m), m) == wrap_index(i + a, m),
{
    broadcast use vstd::arithmetic::div_mod::group_mod_properties;

    lemma_wrap_is_mod(a, m);
    lemma_wrap_is_mod(i + a % m, m);
    lemma_wrap_is_mod(i + a, m);
    vstd::arithmetic::div_mod::lemma_add_mod_noop_right(i, a, m);
}

/// The category flip is an involution: applying it twice gives the state back.
pub proof fn lemma_swap_kind_involutive(s: Scale)
    ensures
        s.spec_swap_kind().spec_swap_kind() == s,
{
}

/// Shifting keeps the kind and lands the index back inside `[0, 12)`.
pub proof fn lemma_change_index_range(s: Scale, k: int)
    ensures
        s.spec_change_index(k).kind == s.kind,
        0 <= s.spec_change_index(k).index < INDEX_COUNT,
{
    broadcast use vstd::arithmetic::div_mod::group_mod_properties;

    lemma_wrap_is_mod(s.index + k, INDEX_COUNT as int);
}

/// Build a scale from its parts.
pub fn scale(index: usize, kind: ScaleKind) -> (r: Scale)
    ensures
        r == (Scale { index, kind }),
{
    Scale { index, kind }
}

/// The scale stored at position `i` of the canonical enumeration: positions
/// `2 * j` and `2 * j + 1` hold the minor and major scale of index `j`.
pub open spec fn state_at(i: int) -> Scale {
    Scale {
        index: (i / 2) as usize,
        kind: if i % 2 == 0 {
            ScaleKind::Minor
        } else {
            ScaleKind::Major
        },
    }
}

/// The canonical enumeration of the whole 24-element space.
pub open spec fn all_states() -> Seq<Scale> {
    Seq::new(24, |i: int| state_at(i))
}

/// The position a well-formed scale occupies in the canonical enumeration.
pub open spec fn state_id(s: Scale) -> int {
    2 * s.index + if s.kind == ScaleKind::Minor {
        0int
    } else {
        1int
    }
}

/// `state_id` inverts `state_at` on the well-formed scales.
pub proof fn lemma_state_id(s: Scale)
    requires
        s.wf(),
    ensures
        0 <= state_id(s) < 24,
        state_at(state_id(s)) == s,
        all_states()[state_id(s)] == s,
        all_states().contains(s),
{
    assert(all_states()[state_id(s)] == s);
}

/// Two successive shifts amount to one shift by the summed amount.
pub proof fn lemma_change_index_compose(s: Scale, a: int, b: int)
    ensures
        s.spec_change_index(a).spec_change_index(b) == s.spec_change_index(a + b),
{
    broadcast use vstd::arithmetic::div_mod::group_mod_properties;

    lemma_wrap_is_mod(s.index + a, INDEX_COUNT as int);
    lemma_wrap_is_mod(wrap_index(s.index + a, INDEX_COUNT as int) + b, INDEX_COUNT as int);
    lemma_wrap_is_mod(s.index + (a + b), INDEX_COUNT as int);
    vstd::arithmetic::div_mod::lemma_add_mod_noop_right(b, s.index + a, INDEX_COUNT as int);
}

/// Shifting by zero leaves a well-formed scale unchanged.
pub proof fn lemma_change_index_zero(s: Scale)
    requires
        s.wf(),
    ensures
        s.spec_change_index(0) == s,
{
    broadcast use vstd::arithmetic::div_mod::group_mod_properties;

    lemma_wrap_is_mod(s.index + 0, INDEX_COUNT as int);
    vstd::arithmetic::div_mod::lemma_small_mod(s.index as nat, INDEX_COUNT as nat);
}

/// `state_at` inverts `state_id` on the canonical positions.
pub proof fn lemma_state_at_id(i: int)
    requires
        0 <= i < 24,
    ensures
        state_at(i).wf(),
        state_id(state_at(i)) == i,
{
    broadcast use vstd::arithmetic::div_mod::group_mod_properties;

    vstd::arithmetic::div_mod::lemma_fundamental_div_mod(i, 2);
}

/// Enumerate the 24 scales, minor before major at each index.
pub fn make_nodes() -> (v: Vec<Scale>)
    ensures
        v@ == all_states(),
{
    let mut v: Vec<Scale> = Vec::new();
    let mut i: usize = 0;
    while i < INDEX_COUNT
        invariant
            i <= INDEX_COUNT,
            v@.len() == 2 * i,
            forall|j: int| 0 <= j < v@.len() ==> v@[j] == state_at(j),
        decreases INDEX_COUNT - i,
    {
        v.push(scale(i, ScaleKind::Minor));
        v.push(scale(i, ScaleKind::Major));
        i += 1;
    }
    proof {
        assert(v@ =~= all_states());
    }
    v
}

} // verus!
