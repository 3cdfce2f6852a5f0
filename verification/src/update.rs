//! Self-update decisions: reading the upstream head from `git ls-remote`
//! output, deciding whether it is newer than the running build, and the
//! messages the command line prints.

use vstd::prelude::*;
use vstd::string::*;

use crate::text::{chars_of, is_whitespace, is_ws, str_eq, string_of, trim_start_spec};

verus! {

/// Number of leading characters of `s` that are not whitespace.
pub open spec fn word_len(s: Seq<char>) -> int
    decreases s.len(),
{
    if s.len() == 0 || is_ws(s[0]) {
        0
    } else {
        1 + word_len(s.drop_first())
    }
}

/// The first whitespace-separated word of `s`, if any
/// (`str::split_whitespace().next()`).
pub open spec fn first_word(s: Seq<char>) -> Option<Seq<char>> {
    let t = trim_start_spec(s);
    if t.len() == 0 {
        None
    } else {
        Some(t.take(word_len(t)))
    }
}

proof fn lemma_word_len(s: Seq<char>, i: int)
    requires
        0 <= i <= s.len(),
        forall|k: int| 0 <= k < i ==> !is_ws(#[trigger] s[k]),
    ensures
        word_len(s) == i + word_len(s.subrange(i, s.len() as int)),
        0 <= word_len(s) <= s.len(),
    decreases i,
{
    lemma_word_len_bound(s);
    if i > 0 {
        assert(!is_ws(s[0]));
        let d = s.drop_first();
        assert forall|k: int| 0 <= k < i - 1 implies !is_ws(#[trigger] d[k]) by {
            assert(d[k] == s[k + 1]);
        }
        lemma_word_len(d, i - 1);
        assert(d.subrange(i - 1, d.len() as int) =~= s.subrange(i, s.len() as int));
    } else {
        assert(s.subrange(0, s.len() as int) =~= s);
    }
}

proof fn lemma_word_len_bound(s: Seq<char>)
    ensures
        0 <= word_len(s) <= s.len(),
    decreases s.len(),
{
    if s.len() > 0 && !is_ws(s[0]) {
        lemma_word_len_bound(s.drop_first());
    }
}

/// The upstream head commit from `git ls-remote <url> HEAD` output: its
/// first whitespace-separated word, or `None` when the output is blank.
pub fn remote_head_from(out: &str) -> (r: Option<String>)
    ensures
        match r {
            Some(h) => first_word(out@) == Some(h@),
            None => first_word(out@) is None,
        },
{
    let cs = chars_of(out);
    let mut lo: usize = 0;
    assert(out@.subrange(0, out@.len() as int) =~= out@);
    while lo < cs.len() && is_whitespace(cs[lo])
        invariant
            cs@ == out@,
            lo <= cs@.len(),
            trim_start_spec(out@) == trim_start_spec(out@.subrange(lo as int, out@.len() as int)),
        decreases cs@.len() - lo,
    {
        assert(out@.subrange(lo as int, out@.len() as int).drop_first() =~= out@.subrange(lo + 1, out@.len() as int));
        lo = lo + 1;
    }
    let ghost t = out@.subrange(lo as int, out@.len() as int);
    assert(trim_start_spec(t) == t);
    if lo == cs.len() {
        return None;
    }
    let mut hi = lo;
    while hi < cs.len() && !is_whitespace(cs[hi])
        invariant
            cs@ == out@,
            lo <= hi <= cs@.len(),
            t == out@.subrange(lo as int, out@.len() as int),
            forall|k: int| 0 <= k < hi - lo ==> !is_ws(#[trigger] t[k]),
        decreases cs@.len() - hi,
    {
        assert(t[hi - lo] == cs@[hi as int]);
        hi = hi + 1;
    }
    proof {
        lemma_word_len(t, hi - lo);
        let rest = t.subrange(hi - lo, t.len() as int);
        if rest.len() > 0 {
            assert(rest[0] == cs@[hi as int]);
        }
        assert(t.take(hi - lo) =~= out@.subrange(lo as int, hi as int));
    }
    Some(string_of(&cs, lo, hi))
}

/// Whether upstream is ahead: always when the build commit is unknown,
/// otherwise when the upstream head differs from it.
pub open spec fn update_spec(current: Seq<char>, remote: Seq<char>) -> bool {
    current == "unknown"@ || current != remote
}

/// Compare the upstream head against the commit this binary was built
/// from: `Some(remote)` when an update is available (including when the
/// local commit is "unknown", so the user can still force an update),
/// `None` when already up to date.
pub fn update_available(current: &str, remote: String) -> (r: Option<String>)
    ensures
        match r {
            Some(h) => update_spec(current@, remote@) && h@ == remote@,
            None => !update_spec(current@, remote@),
        },
{
    if !str_eq(current, "unknown") && str_eq(current, remote.as_str()) {
        None
    } else {
        Some(remote)
    }
}

/// Short (at most 7 bytes) form of a commit hash, for readable status
/// messages.
pub fn short(hash: &str) -> (r: &str)
    requires
        hash.spec_bytes().len() <= usize::MAX,
        vstd::utf8::is_char_boundary(
            hash.spec_bytes(),
            if hash.spec_bytes().len() <= 7 {
                hash.spec_bytes().len() as int
            } else {
                7
            },
        ),
    ensures
        r.spec_bytes() == hash.spec_bytes().subrange(
            0,
            if hash.spec_bytes().len() <= 7 {
                hash.spec_bytes().len() as int
            } else {
                7
            },
        ),
{
    let n = if hash.len() <= 7 { hash.len() } else { 7 };
    let (head, _) = hash.split_at(n);
    head
}

/// The message printed when no update is available.
pub fn up_to_date_message(current_short: &str) -> (r: String)
    ensures
        r@ == "already up to date ("@ + current_short@ + ")"@,
{
    String::from_str("already up to date (").concat(current_short).concat(")")
}

/// The message printed before updating from one commit to another.
pub fn updating_message(from_short: &str, to_short: &str) -> (r: String)
    ensures
        r@ == "updating "@ + from_short@ + " -> "@ + to_short@,
{
    String::from_str("updating ").concat(from_short).concat(" -> ").concat(to_short)
}

} // verus!
