//! Where the prover network's explorer shows a submitted proof request.
use vstd::prelude::*;
use crate::text::join3;

verus! {

/// `s` with every trailing `c` removed.
pub open spec fn trim_end(s: Seq<char>, c: char) -> Seq<char>
    decreases s.len(),
{
    if s.len() > 0 && s.last() == c {
        trim_end(s.drop_last(), c)
    } else {
        s
    }
}

/// Calls `str::trim_end_matches` with the pattern `'/'`. Claimed, as its
/// documentation says: every trailing `/` is removed, repeatedly.
#[verifier::external_body]
fn trim_trailing_slashes(s: &str) -> (r: &str)
    ensures
        r@ == trim_end(s@, '/'),
{
    s.trim_end_matches('/')
}

/// The explorer page of a proof request: the explorer's address without
/// trailing slashes, then `/request/` and the request id.
pub fn request_url(explorer: &str, request_id: &str) -> (r: String)
    ensures
        r@ == trim_end(explorer@, '/') + "/request/"@ + request_id@,
{
    join3(trim_trailing_slashes(explorer), "/request/", request_id)
}

/// Trimming keeps the text up to its last character that is not `c`:
/// what is kept is a prefix of the text that does not end with `c`, and
/// everything removed is `c`.
pub proof fn lemma_trim_end(s: Seq<char>, c: char)
    ensures
        trim_end(s, c).len() <= s.len(),
        s.take(trim_end(s, c).len() as int) == trim_end(s, c),
        trim_end(s, c).len() == 0 || trim_end(s, c).last() != c,
        forall|i: int| trim_end(s, c).len() <= i < s.len() ==> #[trigger] s[i] == c,
    decreases s.len(),
{
    if s.len() > 0 && s.last() == c {
        let t = s.drop_last();
        lemma_trim_end(t, c);
        let r = trim_end(t, c);
        assert(s.take(r.len() as int) =~= t.take(r.len() as int));
        assert forall|i: int| r.len() <= i < s.len() implies #[trigger] s[i] == c by {
            if i < t.len() {
                assert(s[i] == t[i]);
            }
        }
    } else {
        assert(s.take(s.len() as int) =~= s);
    }
}

} // verus!
