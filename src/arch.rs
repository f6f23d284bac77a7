//! The platform family of a full target-architecture string.

use vstd::prelude::*;

verus! {

pub open spec fn riscv() -> Seq<char> {
    seq!['r', 'i', 's', 'c', 'v']
}

pub open spec fn aarch64() -> Seq<char> {
    seq!['a', 'a', 'r', 'c', 'h', '6', '4']
}

pub open spec fn arm() -> Seq<char> {
    seq!['a', 'r', 'm']
}

pub open spec fn powerpc64() -> Seq<char> {
    seq!['p', 'o', 'w', 'e', 'r', 'p', 'c', '6', '4']
}

pub open spec fn x86_64() -> Seq<char> {
    seq!['x', '8', '6', '_', '6', '4']
}

/// The known family tokens, in the order the pattern tries them.
pub open spec fn families() -> Seq<Seq<char>> {
    seq![riscv(), aarch64(), arm(), powerpc64(), x86_64()]
}

/// `w` occurs in `t` starting at position `i`.
pub open spec fn occurs_at(t: Seq<char>, w: Seq<char>, i: int) -> bool {
    0 <= i && i + w.len() <= t.len() && t.subrange(i, i + w.len()) == w
}

/// The first family token, in pattern order, that starts at position `i`.
pub open spec fn family_at(t: Seq<char>, i: int) -> Option<Seq<char>> {
    if occurs_at(t, riscv(), i) {
        Some(riscv())
    } else if occurs_at(t, aarch64(), i) {
        Some(aarch64())
    } else if occurs_at(t, arm(), i) {
        Some(arm())
    } else if occurs_at(t, powerpc64(), i) {
        Some(powerpc64())
    } else if occurs_at(t, x86_64(), i) {
        Some(x86_64())
    } else {
        None
    }
}

/// Leftmost-first search for a family token from position `i` on.
pub open spec fn first_family_from(t: Seq<char>, i: int) -> Option<Seq<char>>
    decreases t.len() - i,
{
    if i < 0 || i >= t.len() {
        None
    } else {
        match family_at(t, i) {
            Some(w) => Some(w),
            None => first_family_from(t, i + 1),
        }
    }
}

/// The base architecture of a full target string, if it names a known family.
pub open spec fn base_arch_of(t: Seq<char>) -> Option<Seq<char>> {
    first_family_from(t, 0)
}

/// The pattern that picks the family token out of a target string.
pub open spec fn family_pattern() -> Seq<char> {
    "(?P<arch>riscv|aarch64|arm|powerpc64|x86_64){1}"@
}

/// The name of the group of the family pattern that holds the token.
pub open spec fn family_group() -> Seq<char> {
    "arch"@
}

/// Relies on regex::Regex::new and Regex::captures: the family pattern is an
/// alternation of plain words, which the crate matches leftmost-first (the
/// earliest start in the text, and there the first alternative that matches);
/// the named group spans the whole match.
#[verifier::external_body]
fn capture_family(pattern: &str, group: &str, text: &str) -> (r: Option<String>)
    requires
        pattern@ == family_pattern(),
        group@ == family_group(),
    ensures
        match r {
            Some(s) => base_arch_of(text@) == Some(s@),
            None => base_arch_of(text@) is None,
        },
{
    let re = match regex::Regex::new(pattern) {
        Ok(re) => re,
        Err(_) => return None,
    };
    re.captures(text).and_then(|c| c.name(group).map(|m| m.as_str().to_string()))
}

/// Translates a full target architecture (`riscv64gc-unknown-none-elf`) into
/// its base architecture (`riscv`), or `None` where it names no known family.
pub fn get_base_arch(full_target: &String) -> (r: Option<String>)
    ensures
        match r {
            Some(s) => base_arch_of(full_target@) == Some(s@),
            None => base_arch_of(full_target@) is None,
        },
{
    capture_family(
        "(?P<arch>riscv|aarch64|arm|powerpc64|x86_64){1}",
        "arch",
        full_target.as_str(),
    )
}

/// Where no family token starts in `[i, k)`, the search from `i` goes on as
/// the search from `k`.
proof fn lemma_scan_skips(t: Seq<char>, i: int, k: int)
    requires
        0 <= i <= k <= t.len(),
        forall|j: int| i <= j < k ==> family_at(t, j) is None,
    ensures
        first_family_from(t, i) == first_family_from(t, k),
    decreases k - i,
{
    if i < k {
        lemma_scan_skips(t, i + 1, k);
    }
}

/// No two family tokens start with the same characters, so where a token
/// starts, it is the one the search reports at that position.
proof fn lemma_family_at_token(t: Seq<char>, w: Seq<char>, p: int)
    requires
        families().contains(w),
        occurs_at(t, w, p),
    ensures
        family_at(t, p) == Some(w),
{
    let k = choose|k: int| 0 <= k < families().len() && families()[k] == w;
    assert(t.subrange(p, p + w.len())[0] == t[p]);
    assert(t.subrange(p, p + w.len())[1] == t[p + 1]);
    if k >= 1 {
        assert(!occurs_at(t, riscv(), p)) by {
            if occurs_at(t, riscv(), p) {
                assert(t.subrange(p, p + 5)[0] == t[p]);
            }
        }
    }
    if k >= 2 {
        assert(!occurs_at(t, aarch64(), p)) by {
            if occurs_at(t, aarch64(), p) {
                assert(t.subrange(p, p + 7)[0] == t[p]);
                assert(t.subrange(p, p + 7)[1] == t[p + 1]);
            }
        }
    }
    if k >= 3 {
        assert(!occurs_at(t, arm(), p)) by {
            if occurs_at(t, arm(), p) {
                assert(t.subrange(p, p + 3)[0] == t[p]);
            }
        }
    }
    if k >= 4 {
        assert(!occurs_at(t, powerpc64(), p)) by {
            if occurs_at(t, powerpc64(), p) {
                assert(t.subrange(p, p + 9)[0] == t[p]);
            }
        }
    }
}

/// A target string that holds a known family token, with no token starting
/// before it, has exactly that token as its base architecture, whatever text
/// surrounds it.
pub proof fn lemma_family_token_found(pre: Seq<char>, w: Seq<char>, post: Seq<char>)
    requires
        families().contains(w),
        forall|j: int| 0 <= j < pre.len() ==> family_at(pre + w + post, j) is None,
    ensures
        base_arch_of(pre + w + post) == Some(w),
{
    let t = pre + w + post;
    let p = pre.len() as int;
    assert(t.subrange(p, p + w.len()) =~= w);
    lemma_family_at_token(t, w, p);
    lemma_scan_skips(t, 0, p);
}

/// A target string in which no known family token occurs has no base
/// architecture: the search reports no match rather than failing.
pub proof fn lemma_unrecognized_has_no_family(t: Seq<char>)
    requires
        forall|i: int| 0 <= i < t.len() ==> family_at(t, i) is None,
    ensures
        base_arch_of(t) is None,
{
    lemma_scan_skips(t, 0, t.len() as int);
}

} // verus!
