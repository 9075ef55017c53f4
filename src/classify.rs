//! The radioactivity rule: every `:`-separated segment of an expanded path
//! must lie under the Nix store.

use vstd::prelude::*;

verus! {

/// The only root that a trusted segment may start with.
pub open spec fn store_prefix() -> Seq<char> {
    seq!['/', 'n', 'i', 'x', '/', 's', 't', 'o', 'r', 'e', '/']
}

/// The `:`-separated segments of `s`, as `str::split(':')` yields them:
/// always at least one, empty ones included.
pub open spec fn segments(s: Seq<char>) -> Seq<Seq<char>>
    decreases s.len(),
{
    if s.len() == 0 {
        seq![Seq::empty()]
    } else {
        let before = segments(s.drop_last());
        if s.last() == ':' {
            before.push(Seq::empty())
        } else {
            before.update(before.len() - 1, before.last().push(s.last()))
        }
    }
}

pub open spec fn is_trusted_segment(seg: Seq<char>) -> bool {
    store_prefix().is_prefix_of(seg)
}

/// A path is radioactive when some segment of it is not under the store.
pub open spec fn radioactive(s: Seq<char>) -> bool {
    exists|i: int| 0 <= i < segments(s).len() && !is_trusted_segment(#[trigger] segments(s)[i])
}

proof fn lemma_segments_nonempty(s: Seq<char>)
    ensures
        segments(s).len() >= 1,
    decreases s.len(),
{
    if s.len() > 0 {
        lemma_segments_nonempty(s.drop_last());
    }
}

/// Whether `s[start..end]` begins with the store prefix.
fn segment_is_trusted(s: &str, start: usize, end: usize) -> (r: bool)
    requires
        start <= end <= s@.len(),
    ensures
        r == is_trusted_segment(s@.subrange(start as int, end as int)),
{
    let prefix = "/nix/store/";
    proof {
        reveal_strlit("/nix/store/");
        assert(prefix@ =~= store_prefix());
    }
    let plen: usize = prefix.unicode_len();
    if end - start < plen {
        return false;
    }
    let mut k: usize = 0;
    while k < plen
        invariant
            plen == store_prefix().len(),
            prefix@ == store_prefix(),
            start + plen <= end <= s@.len(),
            k <= plen,
            forall|j: int| 0 <= j < k ==> s@[start + j] == store_prefix()[j],
        decreases plen - k,
    {
        if s.get_char(start + k) != prefix.get_char(k) {
            assert(s@.subrange(start as int, end as int)[k as int] != store_prefix()[k as int]);
            return false;
        }
        k = k + 1;
    }
    assert(store_prefix() =~= s@.subrange(start as int, end as int).subrange(0, plen as int));
    true
}

/// Whether any `:`-separated segment of `path` fails to start with
/// `/nix/store/`.
pub fn is_radioactive(path: &str) -> (r: bool)
    ensures
        r == radioactive(path@),
{
    let n: usize = path.unicode_len();
    let mut i: usize = 0;
    let mut start: usize = 0;
    let mut found: bool = false;
    proof {
        assert(path@.subrange(0, 0) =~= Seq::<char>::empty());
    }
    while i < n
        invariant
            n == path@.len(),
            start <= i <= n,
            segments(path@.subrange(0, i as int)).last() == path@.subrange(start as int, i as int),
            found == exists|j: int|
                0 <= j < segments(path@.subrange(0, i as int)).len() - 1
                    && !is_trusted_segment(#[trigger] segments(path@.subrange(0, i as int))[j]),
        decreases n - i,
    {
        let ghost pre = path@.subrange(0, i as int);
        let ghost next = path@.subrange(0, i as int + 1);
        proof {
            assert(next.drop_last() =~= pre);
            lemma_segments_nonempty(pre);
        }
        let c = path.get_char(i);
        if c == ':' {
            let ok = segment_is_trusted(path, start, i);
            proof {
                assert(segments(next) == segments(pre).push(Seq::empty()));
                assert(path@.subrange(i as int + 1, i as int + 1) =~= Seq::<char>::empty());
                if !ok {
                    let j = segments(pre).len() - 1;
                    assert(segments(next)[j] == segments(pre)[j]);
                }
                if found {
                    let j = choose|j: int|
                        0 <= j < segments(pre).len() - 1
                            && !is_trusted_segment(#[trigger] segments(pre)[j]);
                    assert(segments(next)[j] == segments(pre)[j]);
                }
                if exists|j: int|
                    0 <= j < segments(next).len() - 1
                        && !is_trusted_segment(#[trigger] segments(next)[j]) {
                    let j = choose|j: int|
                        0 <= j < segments(next).len() - 1
                            && !is_trusted_segment(#[trigger] segments(next)[j]);
                    assert(segments(next)[j] == segments(pre)[j]);
                }
            }
            found = found || !ok;
            start = i + 1;
        } else {
            proof {
                let before = segments(pre);
                assert(segments(next) == before.update(before.len() - 1, before.last().push(c)));
                assert(path@.subrange(start as int, i as int + 1) =~= before.last().push(c));
                if found {
                    let j = choose|j: int|
                        0 <= j < before.len() - 1 && !is_trusted_segment(#[trigger] before[j]);
                    assert(segments(next)[j] == before[j]);
                }
                if exists|j: int|
                    0 <= j < segments(next).len() - 1
                        && !is_trusted_segment(#[trigger] segments(next)[j]) {
                    let j = choose|j: int|
                        0 <= j < segments(next).len() - 1
                            && !is_trusted_segment(#[trigger] segments(next)[j]);
                    assert(segments(next)[j] == before[j]);
                }
            }
        }
        i = i + 1;
    }
    let last_ok = segment_is_trusted(path, start, n);
    proof {
        let all = path@.subrange(0, n as int);
        assert(all =~= path@);
        lemma_segments_nonempty(all);
        if radioactive(path@) {
            let j = choose|j: int|
                0 <= j < segments(path@).len() && !is_trusted_segment(#[trigger] segments(path@)[j]);
            if j < segments(path@).len() - 1 {
                assert(found);
            }
        }
        if !last_ok {
            assert(!is_trusted_segment(segments(path@)[segments(path@).len() - 1]));
        }
    }
    found || !last_ok
}

/// A path whose segments all start with `/nix/store/` is never radioactive,
/// and a path with at least one segment that does not is always radioactive.
pub proof fn lemma_radioactive_iff_untrusted_segment(s: Seq<char>)
    ensures
        (forall|i: int| 0 <= i < segments(s).len() ==> is_trusted_segment(#[trigger] segments(s)[i]))
            ==> !radioactive(s),
        (exists|i: int| 0 <= i < segments(s).len() && !is_trusted_segment(#[trigger] segments(s)[i]))
            ==> radioactive(s),
{
}

} // verus!
