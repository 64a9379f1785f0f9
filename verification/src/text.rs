use vstd::prelude::*;

verus! {

// Byte values of the characters the classifier and parser inspect.
pub const COLON: u8 = 58;
pub const DOT: u8 = 46;
pub const HYPHEN: u8 = 45;
pub const UPPER_A: u8 = 65;
pub const UPPER_Z: u8 = 90;
pub const LOW_A: u8 = 97;
pub const LOW_C: u8 = 99;
pub const LOW_E: u8 = 101;
pub const LOW_L: u8 = 108;
pub const LOW_N: u8 = 110;
pub const LOW_O: u8 = 111;
pub const LOW_P: u8 = 112;
pub const LOW_R: u8 = 114;
pub const LOW_S: u8 = 115;
pub const LOW_T: u8 = 116;
pub const LOW_U: u8 = 117;
pub const LOW_Y: u8 = 121;

pub fn bytes_eq(a: &Vec<u8>, b: &Vec<u8>) -> (r: bool)
    ensures
        r == (a@ == b@),
{
    if a.len() != b.len() {
        proof {
            assert(a@.len() != b@.len());
        }
        return false;
    }
    let mut i: usize = 0;
    while i < a.len()
        invariant
            i <= a@.len(),
            a@.len() == b@.len(),
            forall|j: int| 0 <= j < i ==> a@[j] == b@[j],
        decreases a@.len() - i,
    {
        if a[i] != b[i] {
            return false;
        }
        i = i + 1;
    }
    proof {
        assert(a@ =~= b@);
    }
    true
}

/// Clone a byte string; the copy denotes the same sequence.
pub fn copy_bytes(v: &Vec<u8>) -> (r: Vec<u8>)
    ensures
        r@ == v@,
{
    let mut out: Vec<u8> = Vec::new();
    let mut i: usize = 0;
    while i < v.len()
        invariant
            i <= v@.len(),
            out@ == v@.subrange(0, i as int),
        decreases v@.len() - i,
    {
        out.push(v[i]);
        proof {
            assert(out@ =~= v@.subrange(0, i + 1 as int));
        }
        i = i + 1;
    }
    proof {
        assert(out@ =~= v@);
    }
    out
}

/// The bytes of `v` from position `k` on.
pub fn tail_bytes(v: &Vec<u8>, k: usize) -> (r: Vec<u8>)
    requires
        k <= v@.len(),
    ensures
        r@ == v@.subrange(k as int, v@.len() as int),
{
    let mut out: Vec<u8> = Vec::new();
    let mut i: usize = k;
    while i < v.len()
        invariant
            k <= i <= v@.len(),
            out@ == v@.subrange(k as int, i as int),
        decreases v@.len() - i,
    {
        out.push(v[i]);
        proof {
            assert(out@ =~= v@.subrange(k as int, i + 1 as int));
        }
        i = i + 1;
    }
    out
}

/// Position of the first colon in `s` at or after `i`, if any.
pub open spec fn colon_from(s: Seq<u8>, i: int) -> Option<int>
    decreases s.len() - i,
{
    if i < 0 || i >= s.len() {
        Option::None
    } else if s[i] == COLON {
        Option::Some(i)
    } else {
        colon_from(s, i + 1)
    }
}

/// `colon_from` yields only a genuine colon position within range.
pub proof fn lemma_colon_from_range(s: Seq<u8>, i: int)
    ensures
        match colon_from(s, i) {
            Option::Some(k) => i <= k < s.len() && s[k] == COLON,
            Option::None => true,
        },
    decreases s.len() - i,
{
    if i < 0 || i >= s.len() {
    } else if s[i] == COLON {
    } else {
        lemma_colon_from_range(s, i + 1);
    }
}

pub fn find_colon(v: &Vec<u8>) -> (r: Option<usize>)
    ensures
        match r {
            Option::Some(k) => colon_from(v@, 0) == Option::Some(k as int),
            Option::None => colon_from(v@, 0) == Option::<int>::None,
        },
{
    let mut i: usize = 0;
    while i < v.len()
        invariant
            i <= v@.len(),
            colon_from(v@, 0) == colon_from(v@, i as int),
            forall|j: int| 0 <= j < i ==> v@[j] != COLON,
        decreases v@.len() - i,
    {
        if v[i] == COLON {
            return Option::Some(i);
        }
        i = i + 1;
    }
    Option::None
}

} // verus!
