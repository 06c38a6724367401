//! Reading the checkpoint service's log: the scan that finds the latest
//! timestamp of a successfully exited checkpoint worker, and treats any
//! worker that exited non-zero as fatal. Only the final conversion of the
//! timestamp text to a number is left to the caller.

use vstd::prelude::*;

verus! {

/// The first position at or after `i` holding the separator, or the end.
pub open spec fn run_to_sep(s: Seq<u8>, i: int, sep: u8) -> int
    decreases s.len() - i,
{
    if i < 0 || i >= s.len() {
        i
    } else if s[i] == sep {
        i
    } else {
        run_to_sep(s, i + 1, sep)
    }
}

proof fn lemma_run_to_sep_props(s: Seq<u8>, i: int, sep: u8)
    requires
        0 <= i <= s.len(),
    ensures
        i <= run_to_sep(s, i, sep) <= s.len(),
        forall|k: int| i <= k < run_to_sep(s, i, sep) ==> s[k] != sep,
        run_to_sep(s, i, sep) < s.len() ==> s[run_to_sep(s, i, sep)] == sep,
    decreases s.len() - i,
{
    if i < s.len() && s[i] != sep {
        lemma_run_to_sep_props(s, i + 1, sep);
    }
}

/// The segments of a byte string around a separator; one more segment than
/// there are separators, so never empty.
pub open spec fn spec_split_from(s: Seq<u8>, i: int, sep: u8) -> Seq<Seq<u8>>
    decreases s.len() - i,
        via spec_split_from_decreases
{
    if i < 0 || i > s.len() {
        Seq::empty()
    } else {
        let e = run_to_sep(s, i, sep);
        if e >= s.len() {
            seq![s.subrange(i, s.len() as int)]
        } else {
            seq![s.subrange(i, e)] + spec_split_from(s, e + 1, sep)
        }
    }
}

#[via_fn]
proof fn spec_split_from_decreases(s: Seq<u8>, i: int, sep: u8) {
    if 0 <= i <= s.len() {
        lemma_run_to_sep_props(s, i, sep);
    }
}

/// The segments of a byte string around a separator.
pub open spec fn spec_split(s: Seq<u8>, sep: u8) -> Seq<Seq<u8>> {
    spec_split_from(s, 0, sep)
}

fn scan_to_sep(s: &[u8], start: usize, sep: u8) -> (e: usize)
    requires
        start <= s@.len(),
    ensures
        e == run_to_sep(s@, start as int, sep),
        start <= e <= s@.len(),
{
    proof {
        lemma_run_to_sep_props(s@, start as int, sep);
    }
    let total = s.len();
    let mut j: usize = start;
    loop
        invariant
            start <= j <= total,
            total == s@.len(),
            run_to_sep(s@, j as int, sep) == run_to_sep(s@, start as int, sep),
        decreases total - j,
    {
        if j >= total {
            return j;
        }
        if s[j] == sep {
            return j;
        }
        j += 1;
    }
}

fn copy_range(s: &[u8], from: usize, to: usize) -> (r: Vec<u8>)
    requires
        from <= to <= s@.len(),
    ensures
        r@ == s@.subrange(from as int, to as int),
{
    let mut r: Vec<u8> = Vec::new();
    let mut j: usize = from;
    while j < to
        invariant
            from <= j <= to <= s@.len(),
            r@ == s@.subrange(from as int, j as int),
        decreases to - j,
    {
        r.push(s[j]);
        j += 1;
        proof {
            assert(s@.subrange(from as int, j as int) =~= s@.subrange(from as int, j - 1).push(
                s@[j - 1],
            ));
        }
    }
    r
}

/// Splits a byte string at every occurrence of the separator.
pub fn split_bytes(s: &[u8], sep: u8) -> (r: Vec<Vec<u8>>)
    ensures
        r.deep_view() == spec_split(s@, sep),
        r@.len() >= 1,
{
    let total = s.len();
    let mut parts: Vec<Vec<u8>> = Vec::new();
    let mut i: usize = 0;
    loop
        invariant
            i <= total,
            total == s@.len(),
            spec_split(s@, sep) == parts.deep_view() + spec_split_from(s@, i as int, sep),
        decreases total - i,
    {
        let e = scan_to_sep(s, i, sep);
        let seg = copy_range(s, i, e);
        let ghost before = parts@;
        let ghost before_deep = parts.deep_view();
        parts.push(seg);
        proof {
            assert forall|k: int| 0 <= k < parts@.len() implies parts.deep_view()[k]
                == before_deep.push(s@.subrange(i as int, e as int))[k] by {
                if k < before.len() {
                    assert(parts@[k] == before[k]);
                } else {
                    assert(parts@[k]@ =~= s@.subrange(i as int, e as int));
                }
            }
            assert(parts.deep_view() =~= before_deep.push(s@.subrange(i as int, e as int)));
        }
        if e >= total {
            proof {
                assert(spec_split_from(s@, i as int, sep) == seq![
                    s@.subrange(i as int, total as int),
                ]);
                assert(parts.deep_view() =~= before_deep + spec_split_from(s@, i as int, sep));
            }
            return parts;
        }
        proof {
            assert(spec_split_from(s@, i as int, sep) == seq![s@.subrange(i as int, e as int)]
                + spec_split_from(s@, e + 1, sep));
            assert(parts.deep_view() + spec_split_from(s@, e + 1, sep) =~= before_deep
                + spec_split_from(s@, i as int, sep));
        }
        i = e + 1;
    }
}


/// A byte string with every leading occurrence of a byte removed.
pub open spec fn trim_start_byte(s: Seq<u8>, c: u8) -> Seq<u8>
    decreases s.len(),
{
    if s.len() > 0 && s[0] == c {
        trim_start_byte(s.subrange(1, s.len() as int), c)
    } else {
        s
    }
}

/// A byte string with every trailing occurrence of a byte removed.
pub open spec fn trim_end_byte(s: Seq<u8>, c: u8) -> Seq<u8>
    decreases s.len(),
{
    if s.len() > 0 && s.last() == c {
        trim_end_byte(s.drop_last(), c)
    } else {
        s
    }
}

proof fn lemma_trim_start_at(s: Seq<u8>, c: u8, p: int)
    requires
        0 <= p <= s.len(),
        forall|k: int| 0 <= k < p ==> s[k] == c,
        p < s.len() ==> s[p] != c,
    ensures
        trim_start_byte(s, c) == s.subrange(p, s.len() as int),
    decreases p,
{
    if p == 0 {
        assert(s.subrange(0, s.len() as int) =~= s);
    } else {
        let t = s.subrange(1, s.len() as int);
        lemma_trim_start_at(t, c, p - 1);
        assert(t.subrange(p - 1, t.len() as int) =~= s.subrange(p, s.len() as int));
    }
}

proof fn lemma_trim_end_at(s: Seq<u8>, c: u8, p: int)
    requires
        0 <= p <= s.len(),
        forall|k: int| p <= k < s.len() ==> s[k] == c,
        p > 0 ==> s[p - 1] != c,
    ensures
        trim_end_byte(s, c) == s.subrange(0, p),
    decreases s.len() - p,
{
    if p == s.len() {
        assert(s.subrange(0, p) =~= s);
    } else {
        let t = s.drop_last();
        lemma_trim_end_at(t, c, p);
        assert(t.subrange(0, p) =~= s.subrange(0, p));
    }
}

fn trim_start_exec(s: &Vec<u8>, c: u8) -> (r: Vec<u8>)
    ensures
        r@ == trim_start_byte(s@, c),
{
    let mut p: usize = 0;
    while p < s.len() && s[p] == c
        invariant
            p <= s@.len(),
            forall|k: int| 0 <= k < p ==> s@[k] == c,
        decreases s@.len() - p,
    {
        p += 1;
    }
    proof {
        lemma_trim_start_at(s@, c, p as int);
    }
    copy_range(s.as_slice(), p, s.len())
}

fn trim_end_exec(s: &Vec<u8>, c: u8) -> (r: Vec<u8>)
    ensures
        r@ == trim_end_byte(s@, c),
{
    let mut p: usize = s.len();
    while p > 0 && s[p - 1] == c
        invariant
            p <= s@.len(),
            forall|k: int| p <= k < s@.len() ==> s@[k] == c,
        decreases p,
    {
        p -= 1;
    }
    proof {
        lemma_trim_end_at(s@, c, p as int);
    }
    copy_range(s.as_slice(), 0, p)
}

/// Bytewise lexicographic order, as comparing the log's timestamp texts
/// compares them: there is a first position where the strings differ and `a`
/// holds the greater byte there, or `b` is a proper prefix of `a`.
pub open spec fn bytes_text_gt(a: Seq<u8>, b: Seq<u8>) -> bool {
    ||| exists|k: int|
        0 <= k < a.len() && k < b.len() && a[k] > b[k] && (forall|j: int| 0 <= j < k ==> a[j] == b[j])
    ||| a.len() > b.len() && (forall|j: int| 0 <= j < b.len() ==> a[j] == b[j])
}

fn bytes_text_gt_exec(a: &Vec<u8>, b: &Vec<u8>) -> (r: bool)
    ensures
        r == bytes_text_gt(a@, b@),
{
    let mut i: usize = 0;
    while i < a.len() && i < b.len()
        invariant
            i <= a@.len(),
            i <= b@.len(),
            forall|j: int| 0 <= j < i ==> a@[j] == b@[j],
        decreases a.len() - i,
    {
        if a[i] > b[i] {
            return true;
        }
        if a[i] != b[i] {
            proof {
                assert forall|k: int|
                    !(0 <= k < a@.len() && k < b@.len() && a@[k] > b@[k] && (forall|j: int|
                        0 <= j < k ==> a@[j] == b@[j])) by {
                    if i < k < a@.len() && k < b@.len() {
                        assert(a@[i as int] != b@[i as int]);
                    }
                }
                assert(!(a@.len() > b@.len() && (forall|j: int|
                    0 <= j < b@.len() ==> a@[j] == b@[j]))) by {
                    if a@.len() > b@.len() {
                        assert(a@[i as int] != b@[i as int]);
                    }
                }
            }
            return false;
        }
        i += 1;
    }
    proof {
        assert forall|k: int|
            !(0 <= k < a@.len() && k < b@.len() && a@[k] > b@[k] && (forall|j: int|
                0 <= j < k ==> a@[j] == b@[j])) by {}
    }
    a.len() > b.len()
}


/// The token marking a checkpoint worker's exit line (the bytes of
/// `Worker(pid`).
pub open spec fn worker_token() -> Seq<u8> {
    seq![87u8, 111u8, 114u8, 107u8, 101u8, 114u8, 40u8, 112u8, 105u8, 100u8]
}

/// The token a successful worker exit ends with (the bytes of `0`).
pub open spec fn zero_token() -> Seq<u8> {
    seq![48u8]
}

/// Whether a token occurs among the tokens of a line.
pub open spec fn token_present(tokens: Seq<Seq<u8>>, t: Seq<u8>) -> bool {
    exists|i: int| 0 <= i < tokens.len() && tokens[i] == t
}

/// The scan state after the first `i` lines: the latest timestamp of a
/// successful worker exit so far (starting from the zero stamp), or nothing
/// once some worker line did not end in a clean exit.
pub open spec fn scan_lines(lines: Seq<Seq<u8>>, i: int) -> Option<Seq<u8>>
    decreases i,
{
    if i <= 0 {
        Some(zero_token())
    } else {
        match scan_lines(lines, i - 1) {
            None => None,
            Some(best) => {
                let toks = spec_split(lines[i - 1], 32);
                if token_present(toks, worker_token()) {
                    if toks.len() > 0 && toks.last() == zero_token() {
                        let stamp = trim_end_byte(trim_start_byte(toks[0], 40), 41);
                        if bytes_text_gt(stamp, best) {
                            Some(stamp)
                        } else {
                            Some(best)
                        }
                    } else {
                        None
                    }
                } else {
                    Some(best)
                }
            },
        }
    }
}

/// The latest clean worker-exit timestamp of a whole log.
pub open spec fn spec_latest_stamp(log: Seq<u8>) -> Option<Seq<u8>> {
    scan_lines(spec_split(log, 10), spec_split(log, 10).len() as int)
}

proof fn lemma_scan_none_sticks(lines: Seq<Seq<u8>>, j: int, n: int)
    requires
        0 <= j <= n,
        scan_lines(lines, j) is None,
    ensures
        scan_lines(lines, n) is None,
    decreases n - j,
{
    if j < n {
        lemma_scan_none_sticks(lines, j, n - 1);
    }
}

fn token_present_exec(tokens: &Vec<Vec<u8>>, t: &Vec<u8>) -> (r: bool)
    ensures
        r == token_present(tokens.deep_view(), t@),
{
    let mut i: usize = 0;
    while i < tokens.len()
        invariant
            i <= tokens.len(),
            forall|k: int| 0 <= k < i ==> tokens.deep_view()[k] != t@,
        decreases tokens.len() - i,
    {
        let hit = crate::stage::bytes_eq(&tokens[i], t);
        proof {
            assert(tokens.deep_view()[i as int] == tokens@[i as int]@);
        }
        if hit {
            return true;
        }
        i += 1;
    }
    false
}

/// Scans the checkpoint service's log for worker exit lines: the latest
/// timestamp (first token, parentheses stripped) among workers that exited
/// with 0, or the zero stamp when no worker line is there. Nothing is
/// returned when some worker exited otherwise: the service failed to take a
/// snapshot, which is fatal to the run.
pub fn latest_snapshot_stamp(log: &[u8]) -> (r: Option<Vec<u8>>)
    ensures
        r is Some <==> spec_latest_stamp(log@) is Some,
        r is Some ==> spec_latest_stamp(log@) == Some(r.unwrap()@),
{
    let lines = split_bytes(log, 10);
    let ghost lns = lines.deep_view();

    let mut worker: Vec<u8> = Vec::new();
    worker.push(87);
    worker.push(111);
    worker.push(114);
    worker.push(107);
    worker.push(101);
    worker.push(114);
    worker.push(40);
    worker.push(112);
    worker.push(105);
    worker.push(100);
    proof {
        assert(worker@ =~= worker_token());
    }
    let mut zero: Vec<u8> = Vec::new();
    zero.push(48);
    proof {
        assert(zero@ =~= zero_token());
    }

    let mut best: Vec<u8> = Vec::new();
    best.push(48);
    proof {
        assert(best@ =~= zero_token());
    }

    let mut li: usize = 0;
    while li < lines.len()
        invariant
            li <= lines@.len(),
            lns == lines.deep_view(),
            lns == spec_split(log@, 10),
            lns.len() == lines@.len(),
            worker@ == worker_token(),
            zero@ == zero_token(),
            scan_lines(lns, li as int) == Some(best@),
        decreases lines.len() - li,
    {
        proof {
            assert(lines.deep_view()[li as int] == lines@[li as int]@);
        }
        let toks = split_bytes(lines[li].as_slice(), 32);
        let ghost tks = toks.deep_view();
        let found = token_present_exec(&toks, &worker);
        if found {
            let last_idx = toks.len() - 1;
            let clean = crate::stage::bytes_eq(&toks[last_idx], &zero);
            proof {
                assert(tks[last_idx as int] == toks@[last_idx as int]@);
                assert(tks.last() == tks[last_idx as int]);
            }
            if clean {
                proof {
                    assert(tks[0] == toks@[0]@);
                }
                let stripped = trim_start_exec(&toks[0], 40);
                let stamp = trim_end_exec(&stripped, 41);
                let newer = bytes_text_gt_exec(&stamp, &best);
                if newer {
                    best = stamp;
                }
            } else {
                proof {
                    assert(scan_lines(lns, li + 1) is None);
                    lemma_scan_none_sticks(lns, li + 1, lns.len() as int);
                }
                return None;
            }
        }
        proof {
            assert(scan_lines(lns, li + 1) == Some(best@));
        }
        li += 1;
    }
    Some(best)
}

} // verus!
