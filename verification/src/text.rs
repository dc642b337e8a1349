use vstd::prelude::*;
use vstd::string::*;

verus! {

/// Whether `c` has the Unicode `White_Space` property, the definition of
/// whitespace that Rust's `char::is_whitespace` documents.
pub open spec fn spec_is_whitespace(c: char) -> bool {
    let u = c as u32;
    ||| 0x09 <= u <= 0x0D
    ||| u == 0x20
    ||| u == 0x85
    ||| u == 0xA0
    ||| u == 0x1680
    ||| 0x2000 <= u <= 0x200A
    ||| u == 0x2028
    ||| u == 0x2029
    ||| u == 0x202F
    ||| u == 0x205F
    ||| u == 0x3000
}

pub fn is_whitespace(c: char) -> (r: bool)
    ensures
        r == spec_is_whitespace(c),
{
    let u = c as u32;
    (0x09 <= u && u <= 0x0D) || u == 0x20 || u == 0x85 || u == 0xA0 || u == 0x1680 || (0x2000
        <= u && u <= 0x200A) || u == 0x2028 || u == 0x2029 || u == 0x202F || u == 0x205F || u
        == 0x3000
}

/// The text `s` with all trailing whitespace removed.
pub open spec fn trimmed_end(s: Seq<char>) -> Seq<char>
    decreases s.len(),
{
    if s.len() > 0 && spec_is_whitespace(s.last()) {
        trimmed_end(s.drop_last())
    } else {
        s
    }
}

/// Copies `s` without its trailing whitespace (what `str::trim_end` gives).
pub fn trim_end(s: &str) -> (r: String)
    ensures
        r@ == trimmed_end(s@),
{
    let n = s.unicode_len();
    let mut k: usize = n;
    assert(s@.subrange(0, k as int) =~= s@);
    while k > 0 && is_whitespace(s.get_char(k - 1))
        invariant
            k <= n,
            n == s@.len(),
            trimmed_end(s@) == trimmed_end(s@.subrange(0, k as int)),
        decreases k,
    {
        assert(s@.subrange(0, k as int).drop_last() =~= s@.subrange(0, k - 1));
        k = k - 1;
    }
    let kept = s.substring_char(0, k);
    kept.to_owned()
}

/// Trimming keeps a prefix of the text, removes only whitespace, leaves no
/// trailing whitespace behind, and trimming twice is the same as trimming once.
pub proof fn lemma_trimmed_end(s: Seq<char>)
    ensures
        trimmed_end(s).len() <= s.len(),
        trimmed_end(s) =~= s.subrange(0, trimmed_end(s).len() as int),
        forall|i: int|
            trimmed_end(s).len() <= i < s.len() ==> spec_is_whitespace(#[trigger] s[i]),
        trimmed_end(s).len() > 0 ==> !spec_is_whitespace(trimmed_end(s).last()),
        trimmed_end(trimmed_end(s)) == trimmed_end(s),
    decreases s.len(),
{
    if s.len() > 0 && spec_is_whitespace(s.last()) {
        lemma_trimmed_end(s.drop_last());
        let t = trimmed_end(s.drop_last());
        assert(trimmed_end(s) == t);
        assert forall|i: int| t.len() <= i < s.len() implies spec_is_whitespace(#[trigger] s[i]) by {
            if i < s.len() - 1 {
                assert(s[i] == s.drop_last()[i]);
            }
        }
        assert(t =~= s.subrange(0, t.len() as int));
    }
}

} // verus!
