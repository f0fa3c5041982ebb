//! Character-level text helpers: whitespace trimming and exact string
//! equality, with exact specifications over `Seq<char>` views.

use vstd::prelude::*;
use vstd::string::StrSliceExecFns;
use vstd::string::StringSliceAdditionalSpecFns;
use vstd::utf8::encode_utf8_decode_utf8;

verus! {

/// The Unicode `White_Space` code points, the set that line trimming removes.
pub open spec fn is_space_char(c: char) -> bool {
    let u = c as u32;
    ||| u == 0x20
    ||| (0x09 <= u && u <= 0x0D)
    ||| u == 0x85
    ||| u == 0xA0
    ||| u == 0x1680
    ||| (0x2000 <= u && u <= 0x200A)
    ||| u == 0x2028
    ||| u == 0x2029
    ||| u == 0x202F
    ||| u == 0x205F
    ||| u == 0x3000
}

fn is_space(c: char) -> (r: bool)
    ensures
        r == is_space_char(c),
{
    let u = c as u32;
    u == 0x20 || (0x09 <= u && u <= 0x0D) || u == 0x85 || u == 0xA0 || u == 0x1680 || (0x2000 <= u
        && u <= 0x200A) || u == 0x2028 || u == 0x2029 || u == 0x202F || u == 0x205F || u == 0x3000
}

/// First index at or after `i` holding a non-space character, or `s.len()`.
pub open spec fn ws_prefix_end(s: Seq<char>, i: int) -> int
    decreases s.len() - i,
{
    if i < 0 || i >= s.len() {
        s.len() as int
    } else if !is_space_char(s[i]) {
        i
    } else {
        ws_prefix_end(s, i + 1)
    }
}

/// Last index at or before `i` such that the character just before it is not a
/// space, or `0`.
pub open spec fn ws_suffix_start(s: Seq<char>, i: int) -> int
    decreases i,
{
    if i <= 0 || i > s.len() {
        0
    } else if !is_space_char(s[i - 1]) {
        i
    } else {
        ws_suffix_start(s, i - 1)
    }
}

/// What `trim` returns: the text with leading and trailing whitespace removed.
pub open spec fn trim_spec(s: Seq<char>) -> Seq<char> {
    let a = ws_prefix_end(s, 0);
    let b = ws_suffix_start(s, s.len() as int);
    if a < b {
        s.subrange(a, b)
    } else {
        Seq::empty()
    }
}

proof fn lemma_ws_prefix_end(s: Seq<char>, i: int, j: int)
    requires
        0 <= i <= j <= s.len(),
        forall|k: int| i <= k < j ==> is_space_char(#[trigger] s[k]),
        j == s.len() || !is_space_char(s[j]),
    ensures
        ws_prefix_end(s, i) == j,
    decreases j - i,
{
    if i < j {
        lemma_ws_prefix_end(s, i + 1, j);
    }
}

proof fn lemma_ws_suffix_start(s: Seq<char>, i: int, j: int)
    requires
        0 <= j <= i <= s.len(),
        forall|k: int| j <= k < i ==> is_space_char(#[trigger] s[k]),
        j == 0 || !is_space_char(s[j - 1]),
    ensures
        ws_suffix_start(s, i) == j,
    decreases i - j,
{
    if j < i {
        lemma_ws_suffix_start(s, i - 1, j);
    }
}

/// Trimming leaves no whitespace at either edge, so a second trim is the
/// identity; classification of already-trimmed text is therefore stable.
pub proof fn lemma_trim_idempotent(s: Seq<char>)
    ensures
        trim_spec(trim_spec(s)) == trim_spec(s),
{
    let a = ws_prefix_end(s, 0);
    let b = ws_suffix_start(s, s.len() as int);
    lemma_ws_prefix_bounds(s, 0);
    lemma_ws_suffix_bounds(s, s.len() as int);
    if a < b {
        let t = s.subrange(a, b);
        lemma_ws_prefix_props(s, 0);
        lemma_ws_suffix_props(s, s.len() as int);
        assert(!is_space_char(t[0]));
        assert(!is_space_char(t[t.len() - 1]));
        lemma_ws_prefix_end(t, 0, 0);
        lemma_ws_suffix_start(t, t.len() as int, t.len() as int);
        assert(trim_spec(t) == t.subrange(0, t.len() as int));
        assert(t.subrange(0, t.len() as int) =~= t);
    } else {
        assert(trim_spec(s) == Seq::<char>::empty());
        lemma_ws_prefix_end(Seq::<char>::empty(), 0, 0);
        assert(trim_spec(Seq::<char>::empty()) =~= Seq::<char>::empty());
    }
}

proof fn lemma_ws_prefix_bounds(s: Seq<char>, i: int)
    requires
        0 <= i <= s.len(),
    ensures
        i <= ws_prefix_end(s, i) <= s.len(),
    decreases s.len() - i,
{
    if i < s.len() && is_space_char(s[i]) {
        lemma_ws_prefix_bounds(s, i + 1);
    }
}

proof fn lemma_ws_suffix_bounds(s: Seq<char>, i: int)
    requires
        0 <= i <= s.len(),
    ensures
        0 <= ws_suffix_start(s, i) <= i,
    decreases i,
{
    if i > 0 && is_space_char(s[i - 1]) {
        lemma_ws_suffix_bounds(s, i - 1);
    }
}

proof fn lemma_ws_prefix_props(s: Seq<char>, i: int)
    requires
        0 <= i <= s.len(),
    ensures
        ws_prefix_end(s, i) < s.len() ==> !is_space_char(s[ws_prefix_end(s, i)]),
        forall|k: int| i <= k < ws_prefix_end(s, i) ==> is_space_char(#[trigger] s[k]),
    decreases s.len() - i,
{
    if i < s.len() && is_space_char(s[i]) {
        lemma_ws_prefix_props(s, i + 1);
    }
}

proof fn lemma_ws_suffix_props(s: Seq<char>, i: int)
    requires
        0 <= i <= s.len(),
    ensures
        ws_suffix_start(s, i) > 0 ==> !is_space_char(s[ws_suffix_start(s, i) - 1]),
        forall|k: int| ws_suffix_start(s, i) <= k < i ==> is_space_char(#[trigger] s[k]),
    decreases i,
{
    if i > 0 && is_space_char(s[i - 1]) {
        lemma_ws_suffix_props(s, i - 1);
    }
}

/// Remove leading and trailing whitespace, as `trim_spec` describes.
pub fn trim_str(s: &str) -> (r: &str)
    ensures
        r@ == trim_spec(s@),
{
    let n = s.unicode_len();
    let mut a: usize = 0;
    while a < n && is_space(s.get_char(a))
        invariant
            0 <= a <= n == s@.len(),
            forall|k: int| 0 <= k < a ==> is_space_char(#[trigger] s@[k]),
        decreases n - a,
    {
        a = a + 1;
    }
    proof {
        lemma_ws_prefix_end(s@, 0, a as int);
    }
    let mut b: usize = n;
    while b > a && is_space(s.get_char(b - 1))
        invariant
            a <= b <= n == s@.len(),
            forall|k: int| b <= k < n ==> is_space_char(#[trigger] s@[k]),
        decreases b,
    {
        b = b - 1;
    }
    if a < b {
        proof {
            lemma_ws_suffix_start(s@, s@.len() as int, b as int);
        }
        s.substring_char(a, b)
    } else {
        proof {
            lemma_ws_suffix_start(s@, s@.len() as int, 0);
            reveal_strlit("");
            assert(""@ =~= Seq::<char>::empty());
        }
        ""
    }
}

/// Exact equality of two text slices, compared byte by byte.
pub fn str_eq(a: &str, b: &str) -> (r: bool)
    ensures
        r == (a@ == b@),
{
    let ab = a.as_bytes();
    let bb = b.as_bytes();
    proof {
        encode_utf8_decode_utf8(a@);
        encode_utf8_decode_utf8(b@);
    }
    if ab.len() != bb.len() {
        return false;
    }
    let n = ab.len();
    let mut i: usize = 0;
    while i < n
        invariant
            0 <= i <= n,
            n == ab@.len() == bb@.len(),
            ab@ == a.spec_bytes(),
            bb@ == b.spec_bytes(),
            a@ == vstd::utf8::decode_utf8(a.spec_bytes()),
            b@ == vstd::utf8::decode_utf8(b.spec_bytes()),
            forall|k: int| 0 <= k < i ==> ab@[k] == bb@[k],
        decreases n - i,
    {
        if ab[i] != bb[i] {
            assert(a.spec_bytes() != b.spec_bytes());
            assert(a@ == b@ ==> a.spec_bytes() == b.spec_bytes());
            return false;
        }
        i = i + 1;
    }
    proof {
        assert(a.spec_bytes() =~= b.spec_bytes());
    }
    true
}

} // verus!
