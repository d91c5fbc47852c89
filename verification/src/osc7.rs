//! OSC 7: the escape sequence by which a shell tells its working directory.
//!
//! A sequence is `ESC ] 7 ;`, a payload, and a terminator: `BEL`, or `ESC \`.
use crate::text::{chars_of, string_of, texts, utf8_text};
use vstd::prelude::*;
use vstd::utf8::*;

verus! {

/// The four bytes that open a sequence stand at `i`.
pub open spec fn intro_at(d: Seq<u8>, i: int) -> bool {
    &&& 0 <= i
    &&& i + 3 < d.len()
    &&& d[i] == 0x1b
    &&& d[i + 1] == 0x5d
    &&& d[i + 2] == 0x37
    &&& d[i + 3] == 0x3b
}

/// A terminator stands at `j`: `BEL`, or `ESC \`.
pub open spec fn end_at(d: Seq<u8>, j: int) -> bool {
    &&& 0 <= j < d.len()
    &&& d[j] == 0x07 || (j + 1 < d.len() && d[j] == 0x1b && d[j + 1] == 0x5c)
}

/// The length of the terminator at `j`.
pub open spec fn end_len(d: Seq<u8>, j: int) -> int {
    if d[j] == 0x07 {
        1
    } else {
        2
    }
}

/// `j` is the first place at or after `from` where a terminator stands.
pub open spec fn is_first_end(d: Seq<u8>, from: int, j: int) -> bool {
    &&& from <= j
    &&& end_at(d, j)
    &&& forall|k: int| from <= k < j ==> !end_at(d, k)
}

/// The payload of a sequence that opens at `i` ends at `j`.
pub open spec fn ends_payload(d: Seq<u8>, i: int, j: int) -> bool {
    is_first_end(d, i + 4, j)
}

/// A whole sequence, terminator included, starts at `i`.
pub open spec fn complete_at(d: Seq<u8>, i: int) -> bool {
    &&& intro_at(d, i)
    &&& exists|j: int| ends_payload(d, i, j)
}

/// Where the payload of the whole sequence at `i` ends.
pub open spec fn payload_end(d: Seq<u8>, i: int) -> int {
    choose|j: int| ends_payload(d, i, j)
}

/// The first place after the whole sequence at `i`.
pub open spec fn after(d: Seq<u8>, i: int) -> int {
    payload_end(d, i) + end_len(d, payload_end(d, i))
}

/// `s` from its first `/` on, or nothing where it has none.
pub open spec fn from_slash(s: Seq<char>) -> Seq<char>
    decreases s.len(),
{
    if s.len() == 0 || s[0] == '/' {
        s
    } else {
        from_slash(s.drop_first())
    }
}

/// The path that a payload names: what stands after `file://` and the host name. A payload
/// without that prefix is the path itself.
pub open spec fn payload_path(s: Seq<char>) -> Seq<char> {
    if "file://"@.is_prefix_of(s) {
        let rest = s.skip(7);
        if rest.contains('/') {
            from_slash(rest)
        } else {
            rest
        }
    } else {
        s
    }
}

/// The directories that a payload reports: its path, unless it is empty or no text.
pub open spec fn reported(payload: Seq<u8>) -> Seq<Seq<char>> {
    if valid_utf8(payload) && payload_path(decode_utf8(payload)).len() > 0 {
        seq![payload_path(decode_utf8(payload))]
    } else {
        Seq::empty()
    }
}

/// What `d` holds from `i` on: the directories reported, and the bytes outside whole sequences.
pub open spec fn scan(d: Seq<u8>, i: int) -> (Seq<Seq<char>>, Seq<u8>)
    decreases d.len() - i,
{
    if i < 0 || i >= d.len() {
        (Seq::empty(), Seq::empty())
    } else if complete_at(d, i) {
        let rest = scan(d, after(d, i));
        (reported(d.subrange(i + 4, payload_end(d, i))) + rest.0, rest.1)
    } else {
        let rest = scan(d, i + 1);
        (rest.0, seq![d[i]] + rest.1)
    }
}

/// Finds the first terminator at or after `from`.
fn find_end(data: &[u8], from: usize) -> (r: Option<usize>)
    requires
        from <= data@.len(),
    ensures
        match r {
            Some(j) => is_first_end(data@, from as int, j as int),
            None => forall|k: int| from <= k ==> !end_at(data@, k),
        },
{
    let mut j: usize = from;
    while j < data.len()
        invariant
            from <= j <= data@.len(),
            forall|k: int| from <= k < j ==> !end_at(data@, k),
        decreases data@.len() - j,
    {
        if data[j] == 0x07 {
            return Some(j);
        }
        if data.len() - j > 1 && data[j] == 0x1b && data[j + 1] == 0x5c {
            return Some(j);
        }
        j += 1;
    }
    None
}

/// What stands from the first `/` on, where that is at `i`.
pub proof fn lemma_from_slash(s: Seq<char>, i: int)
    requires
        0 <= i < s.len(),
        s[i] == '/',
        forall|k: int| 0 <= k < i ==> s[k] != '/',
    ensures
        from_slash(s) == s.skip(i),
    decreases i,
{
    if i > 0 {
        assert(s[0] != '/');
        lemma_from_slash(s.drop_first(), i - 1);
        assert(s.drop_first().skip(i - 1) =~= s.skip(i));
    } else {
        assert(s.skip(0) =~= s);
    }
}

/// The path that a payload names.
fn path_in_payload(s: &str) -> (r: String)
    ensures
        r@ == payload_path(s@),
{
    let v = chars_of(s);
    let prefix = chars_of("file://");
    proof {
        reveal_strlit("file://");
    }
    if v.len() < prefix.len() {
        assert(v@.skip(0) =~= s@);
        return string_of(&v, 0);
    }
    let mut i: usize = 0;
    while i < prefix.len()
        invariant
            i <= prefix@.len() <= v@.len(),
            v@ == s@,
            prefix@ == "file://"@,
            forall|k: int| 0 <= k < i ==> v@[k] == prefix@[k],
        decreases prefix@.len() - i,
    {
        if v[i] != prefix[i] {
            assert(!"file://"@.is_prefix_of(s@));
            assert(v@.skip(0) =~= s@);
            return string_of(&v, 0);
        }
        i += 1;
    }
    assert("file://"@.is_prefix_of(s@)) by {
        assert(s@.subrange(0, prefix@.len() as int) =~= prefix@);
    }
    let ghost rest = s@.skip(7);
    let mut j: usize = prefix.len();
    while j < v.len()
        invariant
            7 <= j <= v@.len(),
            v@ == s@,
            rest == s@.skip(7),
            "file://"@.is_prefix_of(s@),
            forall|k: int| 7 <= k < j ==> v@[k] != '/',
        decreases v@.len() - j,
    {
        if v[j] == '/' {
            proof {
                assert(rest[j - 7] == '/');
                assert forall|k: int| 0 <= k < j - 7 implies rest[k] != '/' by {
                    assert(rest[k] == v@[k + 7]);
                }
                lemma_from_slash(rest, j - 7);
                assert(rest.skip(j - 7) =~= v@.skip(j as int));
            }
            return string_of(&v, j);
        }
        j += 1;
    }
    assert(!rest.contains('/')) by {
        assert forall|k: int| 0 <= k < rest.len() implies rest[k] != '/' by {
            assert(rest[k] == v@[k + 7]);
        }
    }
    string_of(&v, prefix.len())
}

/// Takes the OSC 7 sequences out of raw terminal output: returns the directories that they
/// report, in order, and the output without them.
pub fn extract_osc7(data: &[u8]) -> (r: (Vec<String>, Vec<u8>))
    ensures
        texts(r.0@) == scan(data@, 0).0,
        r.1@ == scan(data@, 0).1,
{
    let mut cwds: Vec<String> = Vec::new();
    let mut out: Vec<u8> = Vec::new();
    let mut i: usize = 0;
    assert(texts(cwds@) + scan(data@, 0).0 =~= scan(data@, 0).0);
    assert(out@ + scan(data@, 0).1 =~= scan(data@, 0).1);
    while i < data.len()
        invariant
            0 <= i <= data@.len(),
            texts(cwds@) + scan(data@, i as int).0 == scan(data@, 0).0,
            out@ + scan(data@, i as int).1 == scan(data@, 0).1,
        decreases data@.len() - i,
    {
        if data.len() - i > 3 && data[i] == 0x1b && data[i + 1] == 0x5d && data[i + 2] == 0x37
            && data[i + 3] == 0x3b {
            assert(intro_at(data@, i as int));
            if let Some(j) = find_end(data, i + 4) {
                let ghost before = texts(cwds@);
                proof {
                    assert(ends_payload(data@, i as int, j as int));
                    lemma_first_end_unique(data@, i + 4, j as int, payload_end(data@, i as int));
                }
                let payload = vstd::slice::slice_subrange(data, i + 4, j);
                let ghost news = reported(payload@);
                if let Some(s) = utf8_text(payload) {
                    let path = path_in_payload(s.as_str());
                    if !path.as_str().is_empty() {
                        let ghost p = path@;
                        let ghost prev = cwds@;
                        cwds.push(path);
                        assert(texts(cwds@) =~= texts(prev).push(p));
                    }
                }
                assert(texts(cwds@) =~= before + news);
                let ghost rest = scan(data@, after(data@, i as int));
                assert(before + news + rest.0 =~= before + (news + rest.0));
                i = if data[j] == 0x07 { j + 1 } else { j + 2 };
                continue;
            }
        }
        proof {
            assert(!complete_at(data@, i as int));
            let rest = scan(data@, i + 1);
            assert(out@.push(data@[i as int]) + rest.1 =~= out@ + (seq![data@[i as int]] + rest.1));
        }
        out.push(data[i]);
        i += 1;
    }
    assert(texts(cwds@) + scan(data@, i as int).0 =~= texts(cwds@));
    assert(out@ + scan(data@, i as int).1 =~= out@);
    (cwds, out)
}

proof fn lemma_first_end_unique(d: Seq<u8>, from: int, j: int, k: int)
    requires
        is_first_end(d, from, j),
        is_first_end(d, from, k),
    ensures
        j == k,
{
    if j < k {
        assert(!end_at(d, j));
    }
    if k < j {
        assert(!end_at(d, k));
    }
}

/// Output that holds no whole sequence comes through unchanged, and reports nothing.
pub proof fn law_plain_output_unchanged(d: Seq<u8>)
    requires
        forall|i: int| !complete_at(d, i),
    ensures
        scan(d, 0) == (Seq::<Seq<char>>::empty(), d),
{
    lemma_plain_tail(d, 0);
    assert(d.skip(0) =~= d);
}

proof fn lemma_plain_tail(d: Seq<u8>, i: int)
    requires
        0 <= i <= d.len(),
        forall|k: int| i <= k ==> !complete_at(d, k),
    ensures
        scan(d, i) == (Seq::<Seq<char>>::empty(), d.skip(i)),
    decreases d.len() - i,
{
    if i < d.len() {
        lemma_plain_tail(d, i + 1);
        assert(seq![d[i]] + d.skip(i + 1) =~= d.skip(i));
    } else {
        assert(d.skip(i) =~= Seq::empty());
    }
}

/// A sequence with payload `p` and terminator `end`.
pub open spec fn sequence(p: Seq<u8>, end: Seq<u8>) -> Seq<u8> {
    seq![0x1bu8, 0x5d, 0x37, 0x3b] + p + end
}

/// `end` is one of the two terminators.
pub open spec fn is_terminator(end: Seq<u8>) -> bool {
    end == seq![0x07u8] || end == seq![0x1bu8, 0x5c]
}

proof fn lemma_scan_shift(a: Seq<u8>, b: Seq<u8>, i: int)
    requires
        0 <= i <= b.len(),
    ensures
        scan(a + b, a.len() + i) == scan(b, i),
    decreases b.len() - i,
{
    let d = a + b;
    let n = a.len() as int;
    if i < b.len() {
        assert forall|k: int| k >= 0 implies end_at(d, n + k) == end_at(b, k) by {}
        assert(intro_at(d, n + i) == intro_at(b, i));
        assert forall|j: int| j >= 0 implies ends_payload(d, n + i, n + j) == ends_payload(b, i, j) by {
            if ends_payload(d, n + i, n + j) {
                assert forall|k: int| i + 4 <= k < j implies !end_at(b, k) by {
                    assert(!end_at(d, n + k));
                }
            }
            if ends_payload(b, i, j) {
                assert forall|k: int| n + i + 4 <= k < n + j implies !end_at(d, k) by {
                    assert(end_at(d, n + (k - n)) == end_at(b, k - n));
                }
            }
        }
        if complete_at(b, i) {
            let j = payload_end(b, i);
            assert(ends_payload(d, n + i, n + j));
            assert(complete_at(d, n + i));
            lemma_first_end_unique(d, n + i + 4, n + j, payload_end(d, n + i));
            lemma_scan_shift(a, b, after(b, i));
            assert(d.subrange(n + i + 4, n + j) =~= b.subrange(i + 4, j));
        } else {
            if complete_at(d, n + i) {
                let j = payload_end(d, n + i);
                assert(ends_payload(b, i, j - n));
            }
            lemma_scan_shift(a, b, i + 1);
        }
    }
}

proof fn lemma_scan_over(a: Seq<u8>, b: Seq<u8>, i: int)
    requires
        0 <= i <= a.len(),
        forall|k: int| i <= k < a.len() ==> !intro_at(a + b, k),
    ensures
        scan(a + b, i) == (scan(b, 0).0, a.skip(i) + scan(b, 0).1),
    decreases a.len() - i,
{
    if i < a.len() {
        lemma_scan_over(a, b, i + 1);
        assert(seq![a[i]] + (a.skip(i + 1) + scan(b, 0).1) =~= a.skip(i) + scan(b, 0).1);
    } else {
        lemma_scan_shift(a, b, 0);
        assert(a.skip(i) + scan(b, 0).1 =~= scan(b, 0).1);
    }
}

/// A sequence is taken out of the middle of the output, and its payload is read: what stands
/// before it is kept, what stands after it is read on its own.
pub proof fn law_sequence_stripped_and_read(a: Seq<u8>, p: Seq<u8>, end: Seq<u8>, b: Seq<u8>)
    requires
        is_terminator(end),
        forall|i: int| !intro_at(a, i),
        forall|k: int| !end_at(p, k),
    ensures
        scan(a + sequence(p, end) + b, 0) == (reported(p) + scan(b, 0).0, a + scan(b, 0).1),
{
    let t = sequence(p, end) + b;
    let d = a + sequence(p, end) + b;
    assert(d =~= a + t);
    assert forall|k: int| 0 <= k < a.len() implies !intro_at(a + t, k) by {
        assert(!intro_at(a, k));
        assert(t[0] == 0x1b);
    }
    lemma_scan_over(a, t, 0);
    assert(a.skip(0) =~= a);
    let j: int = 4 + p.len() as int;
    assert(intro_at(t, 0));
    assert forall|k: int| 4 <= k < j implies !end_at(t, k) by {
        assert(!end_at(p, k - 4));
        assert(t[k] == p[k - 4]);
        assert(t[j] == end[0]);
    }
    assert(t[j] == end[0]);
    if end.len() == 2 {
        assert(t[j + 1] == end[1]);
    }
    assert(ends_payload(t, 0, j));
    lemma_first_end_unique(t, 4, j, payload_end(t, 0));
    assert(t.subrange(4, j) =~= p);
    lemma_scan_shift(sequence(p, end), b, 0);
}

/// Place `n` of what is kept of `d` from `i` on is one where a sequence was taken out.
pub open spec fn joint(d: Seq<u8>, i: int, n: int) -> bool
    decreases d.len() - i,
{
    if i < 0 || i >= d.len() {
        false
    } else if complete_at(d, i) {
        n == 0 || joint(d, after(d, i), n)
    } else {
        joint(d, i + 1, n - 1)
    }
}

proof fn lemma_kept_run(d: Seq<u8>, i: int, n: int)
    requires
        0 <= i <= d.len(),
        0 <= n <= scan(d, i).1.len(),
        forall|m: int| 0 <= m < n ==> !joint(d, i, m),
    ensures
        i + n <= d.len(),
        scan(d, i).1 == d.subrange(i, i + n) + scan(d, i + n).1,
    decreases n,
{
    if n > 0 {
        assert(i < d.len());
        assert(!joint(d, i, 0));
        assert(!complete_at(d, i));
        let next = i + 1;
        assert forall|m: int| 0 <= m < n - 1 implies !joint(d, next, m) by {
            assert(!joint(d, i, m + 1));
        }
        lemma_kept_run(d, next, n - 1);
        assert(seq![d[i]] + (d.subrange(i + 1, i + n) + scan(d, i + n).1) =~= d.subrange(i, i + n)
            + scan(d, i + n).1);
    } else {
        assert(d.subrange(i, i) + scan(d, i).1 =~= scan(d, i).1);
    }
}

proof fn lemma_whole_spans_joint(d: Seq<u8>, i: int, k: int)
    requires
        0 <= i <= d.len(),
        complete_at(scan(d, i).1, k),
    ensures
        joint(d, i, k + 1) || joint(d, i, k + 2) || joint(d, i, k + 3),
    decreases d.len() - i,
{
    let out = scan(d, i).1;
    assert(i < d.len());
    if complete_at(d, i) {
        lemma_whole_spans_joint(d, after(d, i), k);
    } else if k > 0 {
        let rest = scan(d, i + 1).1;
        let j = payload_end(out, k);
        assert forall|m: int| m >= 0 implies end_at(out, m + 1) == end_at(rest, m) by {}
        assert(intro_at(rest, k - 1));
        assert(ends_payload(rest, k - 1, j - 1)) by {
            assert forall|m: int| k + 3 <= m < j - 1 implies !end_at(rest, m) by {
                assert(!end_at(out, m + 1));
            }
        }
        lemma_whole_spans_joint(d, i + 1, k - 1);
    } else if !joint(d, i, 1) && !joint(d, i, 2) && !joint(d, i, 3) {
        assert(!joint(d, i + 1, -1)) by {
            lemma_no_negative_joint(d, i + 1, -1);
        }
        lemma_kept_run(d, i, 4);
        assert(out == d.subrange(i, i + 4) + scan(d, i + 4).1);
        assert(forall|m: int| 0 <= m < 4 ==> out[m] == d[i + m]);
        assert(d[i] == out[0] && d[i + 1] == out[1] && d[i + 2] == out[2] && d[i + 3] == out[3]);
        assert(intro_at(d, i));
        assert forall|m: int| i + 4 <= m implies !end_at(d, m) by {
            if end_at(d, m) {
                let from = i + 4;
                lemma_first_end_exists(d, from, m);
                let f = choose|f: int| is_first_end(d, from, f);
                assert(ends_payload(d, i, f));
            }
        }
        assert forall|m: int| i + 4 <= m implies !complete_at(d, m) by {
            if complete_at(d, m) {
                assert(end_at(d, payload_end(d, m)));
            }
        }
        lemma_plain_tail(d, i + 4);
        assert(out =~= d.skip(i));
        let j = payload_end(out, 0);
        assert(end_at(out, j));
        assert(end_at(d, i + j));
    }
}

proof fn lemma_no_negative_joint(d: Seq<u8>, i: int, n: int)
    requires
        n < 0,
    ensures
        !joint(d, i, n),
    decreases d.len() - i,
{
    if 0 <= i < d.len() {
        if complete_at(d, i) {
            lemma_no_negative_joint(d, after(d, i), n);
        } else {
            lemma_no_negative_joint(d, i + 1, n - 1);
        }
    }
}

proof fn lemma_first_end_exists(d: Seq<u8>, from: int, m: int)
    requires
        from <= m,
        end_at(d, m),
    ensures
        exists|f: int| is_first_end(d, from, f),
    decreases m - from,
{
    if forall|k: int| from <= k < m ==> !end_at(d, k) {
        assert(is_first_end(d, from, m));
    } else {
        let k = choose|k: int| from <= k < m && end_at(d, k);
        lemma_first_end_exists(d, from, k);
    }
}

/// Every whole sequence is taken out: where the output still holds one, its four opening bytes
/// come from both sides of a place where another was taken out.
pub proof fn law_no_sequence_left(d: Seq<u8>)
    ensures
        forall|k: int| #[trigger]
            complete_at(scan(d, 0).1, k) ==> joint(d, 0, k + 1) || joint(d, 0, k + 2) || joint(
                d,
                0,
                k + 3,
            ),
{
    assert forall|k: int| #[trigger] complete_at(scan(d, 0).1, k) implies joint(d, 0, k + 1)
        || joint(d, 0, k + 2) || joint(d, 0, k + 3) by {
        lemma_whole_spans_joint(d, 0, k);
    }
}

/// Output in which the bytes `ESC ] 7 ;` stand nowhere in a row, such as a window title that is
/// set by another sequence, comes through unchanged, and reports nothing.
pub proof fn law_output_without_opening_bytes_unchanged(d: Seq<u8>)
    requires
        forall|i: int, j: int|
            0 <= i && j == i + 4 && j <= d.len() ==> #[trigger] d.subrange(i, j) != seq![
                0x1bu8,
                0x5d,
                0x37,
                0x3b,
            ],
    ensures
        scan(d, 0) == (Seq::<Seq<char>>::empty(), d),
{
    assert forall|i: int| !complete_at(d, i) by {
        if intro_at(d, i) {
            assert(d.subrange(i, i + 4) =~= seq![0x1bu8, 0x5d, 0x37, 0x3b]);
        }
    }
    law_plain_output_unchanged(d);
}

/// Output that opens a report and does not end it, with neither `BEL` nor `ESC \` behind it, comes
/// through unchanged, and reports nothing.
pub proof fn law_unfinished_report_stays(a: Seq<u8>, t: Seq<u8>)
    requires
        forall|i: int, j: int|
            0 <= i && j == i + 4 && j <= a.len() ==> #[trigger] a.subrange(i, j) != seq![
                0x1bu8,
                0x5d,
                0x37,
                0x3b,
            ],
        forall|k: int| 0 <= k < t.len() ==> #[trigger] t[k] != 0x07,
        forall|k: int, n: int|
            #![trigger t[k], t[n]]
            0 <= k && n == k + 1 && n < t.len() ==> !(t[k] == 0x1b && t[n] == 0x5c),
    ensures
        scan(a + seq![0x1bu8, 0x5d, 0x37, 0x3b] + t, 0) == (
            Seq::<Seq<char>>::empty(),
            a + seq![0x1bu8, 0x5d, 0x37, 0x3b] + t,
        ),
{
    let d = a + seq![0x1bu8, 0x5d, 0x37, 0x3b] + t;
    let n = a.len() as int;
    assert forall|i: int| !complete_at(d, i) by {
        if complete_at(d, i) {
            let j = payload_end(d, i);
            assert(ends_payload(d, i, j));
            if i + 4 <= n {
                assert(a.subrange(i, i + 4) =~= d.subrange(i, i + 4));
                assert(d.subrange(i, i + 4) =~= seq![0x1bu8, 0x5d, 0x37, 0x3b]);
            } else if i < n {
                assert(d[n] == 0x1b);
            } else {
                assert(d[n + 1] == 0x5d && d[n + 2] == 0x37 && d[n + 3] == 0x3b);
                assert(j >= n + 4);
                assert(d[j] == t[j - n - 4]);
                if j + 1 < d.len() {
                    assert(d[j + 1] == t[j + 1 - n - 4]);
                }
            }
        }
    }
    law_plain_output_unchanged(d);
}

/// A report, that is `ESC ] 7 ;`, a payload and `BEL` or `ESC \`, is taken out of the output, whatever
/// stands before and behind it: what stands before stays, what stands behind is read on its own, and
/// the payload is read.
pub proof fn law_report_is_taken_out(a: Seq<u8>, p: Seq<u8>, end: Seq<u8>, b: Seq<u8>)
    requires
        end == seq![0x07u8] || end == seq![0x1bu8, 0x5c],
        forall|i: int, j: int|
            0 <= i && j == i + 4 && j <= a.len() ==> #[trigger] a.subrange(i, j) != seq![
                0x1bu8,
                0x5d,
                0x37,
                0x3b,
            ],
        forall|k: int| 0 <= k < p.len() ==> #[trigger] p[k] != 0x07,
        forall|k: int, n: int|
            #![trigger p[k], p[n]]
            0 <= k && n == k + 1 && n < p.len() ==> !(p[k] == 0x1b && p[n] == 0x5c),
    ensures
        ({
            let d = a + seq![0x1bu8, 0x5d, 0x37, 0x3b] + p + end + b;
            &&& scan(d, 0).1 == a + scan(b, 0).1
            &&& scan(d, 0).0 == reported(p) + scan(b, 0).0
        }),
{
    assert forall|i: int| !intro_at(a, i) by {
        if intro_at(a, i) {
            assert(a.subrange(i, i + 4) =~= seq![0x1bu8, 0x5d, 0x37, 0x3b]);
        }
    }
    assert forall|k: int| !end_at(p, k) by {
        if end_at(p, k) {
            assert(p[k] != 0x07);
            assert(!(p[k] == 0x1b && p[k + 1] == 0x5c));
        }
    }
    law_sequence_stripped_and_read(a, p, end, b);
    assert(a + seq![0x1bu8, 0x5d, 0x37, 0x3b] + p + end + b =~= a + sequence(p, end) + b);
}

/// A payload `file://`, a host and a path reports the path.
pub proof fn law_file_url_reports_its_path(host: Seq<char>, path: Seq<char>)
    requires
        !host.contains('/'),
        path.len() > 0,
        path[0] == '/',
    ensures
        reported(encode_utf8("file://"@ + host + path)) == seq![path],
{
    let text = "file://"@ + host + path;
    reveal_strlit("file://");
    encode_utf8_valid_utf8(text);
    encode_utf8_decode_utf8(text);
    assert("file://"@.is_prefix_of(text)) by {
        assert(text.subrange(0, 7) =~= "file://"@);
    }
    let rest = text.skip(7);
    let n = host.len() as int;
    assert(rest =~= host + path);
    assert(rest[n] == '/');
    assert forall|k: int| 0 <= k < n implies rest[k] != '/' by {
        assert(rest[k] == host[k]);
        assert(host.contains(host[k]));
    }
    lemma_from_slash(rest, n);
    assert(rest.skip(n) =~= path);
}

/// A payload `file://` with no `/` behind it reports what stands behind it, if anything does.
pub proof fn law_file_url_without_path(rest: Seq<char>)
    requires
        !rest.contains('/'),
    ensures
        reported(encode_utf8("file://"@ + rest)) == if rest.len() > 0 {
            seq![rest]
        } else {
            Seq::<Seq<char>>::empty()
        },
{
    let text = "file://"@ + rest;
    reveal_strlit("file://");
    encode_utf8_valid_utf8(text);
    encode_utf8_decode_utf8(text);
    assert("file://"@.is_prefix_of(text)) by {
        assert(text.subrange(0, 7) =~= "file://"@);
    }
    assert(text.skip(7) =~= rest);
}

/// A payload that is a text and does not start with `file://` reports that text, if there is any.
pub proof fn law_other_text_reports_itself(s: Seq<char>)
    requires
        s.len() < 7 || s.take(7) != "file://"@,
    ensures
        reported(encode_utf8(s)) == if s.len() > 0 {
            seq![s]
        } else {
            Seq::<Seq<char>>::empty()
        },
{
    reveal_strlit("file://");
    encode_utf8_valid_utf8(s);
    encode_utf8_decode_utf8(s);
    if "file://"@.is_prefix_of(s) {
        assert(s.take(7) =~= "file://"@);
    }
}

/// A payload that is no UTF-8 text reports nothing.
pub proof fn law_payload_that_is_no_text_reports_nothing(p: Seq<u8>)
    requires
        !valid_utf8(p),
    ensures
        reported(p) == Seq::<Seq<char>>::empty(),
{
}

} // verus!
