//! Incremental delimiter scanning over a byte source.
//!
//! The scan keeps a single match streak against the delimiter: a byte that
//! extends the match advances the streak, any other byte resets it to zero
//! without being matched again. The scan stops at the first occurrence of the
//! delimiter whenever the bytes before that occurrence do not end with a
//! proper prefix of the delimiter; otherwise it may pass over it (`"\r\n"` is
//! missed in `"a\r\r\n"`).
use vstd::prelude::*;
use crate::ProxyError;

verus! {

/// ASCII whitespace: tab, line feed, vertical tab, form feed, carriage return, space.
pub open spec fn is_ascii_ws(b: u8) -> bool {
    b == 9 || b == 10 || b == 11 || b == 12 || b == 13 || b == 32
}

/// The streak after byte `b` when `k` bytes of `d` were matched.
pub open spec fn next_streak(d: Seq<u8>, k: nat, b: u8) -> nat {
    if k < d.len() && b == d[k as int] {
        k + 1
    } else {
        0
    }
}

/// The streak after scanning all of `s` against `d`.
pub open spec fn streak_of(s: Seq<u8>, d: Seq<u8>) -> nat
    decreases s.len(),
{
    if s.len() == 0 {
        0
    } else {
        next_streak(d, streak_of(s.drop_last(), d), s.last())
    }
}

/// The first end offset, past `i`, at which the streak completes `d`.
pub open spec fn scan_from(s: Seq<u8>, d: Seq<u8>, i: nat) -> Option<nat>
    decreases s.len() - i,
{
    if i >= s.len() {
        None
    } else if streak_of(s.take((i + 1) as int), d) == d.len() {
        Some((i + 1) as nat)
    } else {
        scan_from(s, d, (i + 1) as nat)
    }
}

/// Where a scan of `s` for `d` stops: just past the delimiter, if it is found.
pub open spec fn scan_end(s: Seq<u8>, d: Seq<u8>) -> Option<nat> {
    scan_from(s, d, 0)
}

/// The bytes before the delimiter, if the scan finds it.
pub open spec fn scan_token(s: Seq<u8>, d: Seq<u8>) -> Option<Seq<u8>> {
    match scan_end(s, d) {
        Some(e) => Some(s.take(e - d.len())),
        None => None,
    }
}

/// What is left of `s` after a scan for `d`: nothing if it is not found.
pub open spec fn scan_rest(s: Seq<u8>, d: Seq<u8>) -> Seq<u8> {
    match scan_end(s, d) {
        Some(e) => s.skip(e as int),
        None => Seq::empty(),
    }
}

/// `s` without its leading ASCII whitespace.
pub open spec fn skip_ws(s: Seq<u8>) -> Seq<u8>
    decreases s.len(),
{
    if s.len() > 0 && is_ascii_ws(s[0]) {
        skip_ws(s.skip(1))
    } else {
        s
    }
}

/// A streak of `k` means that the last `k` bytes scanned are the first `k` of `d`.
pub proof fn lemma_streak_sound(s: Seq<u8>, d: Seq<u8>)
    ensures
        streak_of(s, d) <= s.len(),
        streak_of(s, d) <= d.len(),
        s.subrange(s.len() - streak_of(s, d), s.len() as int) == d.take(streak_of(s, d) as int),
    decreases s.len(),
{
    if s.len() > 0 {
        let p = s.drop_last();
        lemma_streak_sound(p, d);
        let k = streak_of(p, d);
        if k < d.len() && s.last() == d[k as int] {
            let w = s.subrange(s.len() - (k + 1), s.len() as int);
            assert forall|j: int| 0 <= j < k + 1 implies #[trigger] w[j] == d.take(
                (k + 1) as int,
            )[j] by {
                if j < k {
                    assert(p.subrange(p.len() - k, p.len() as int)[j] == d.take(k as int)[j]);
                }
            }
            assert(s.subrange(s.len() - (k + 1), s.len() as int) =~= d.take((k + 1) as int));
        } else {
            assert(s.subrange(s.len() as int, s.len() as int) =~= d.take(0));
        }
    }
}

/// `d` stands in `s` at offset `f`.
pub open spec fn occurs_at(s: Seq<u8>, d: Seq<u8>, f: int) -> bool {
    0 <= f && f + d.len() <= s.len() && s.subrange(f, f + d.len()) == d
}

/// `f` is the offset of the first occurrence of `d` in `s`.
pub open spec fn is_first_occurrence(s: Seq<u8>, d: Seq<u8>, f: int) -> bool {
    occurs_at(s, d, f) && forall|g: int| 0 <= g < f ==> !#[trigger] occurs_at(s, d, g)
}

/// The bytes of `s` before offset `f` end with a proper, non-empty prefix of `d`.
pub open spec fn ends_with_partial(s: Seq<u8>, d: Seq<u8>, f: int) -> bool {
    exists|k: int|
        0 < k < d.len() && k <= f && #[trigger] s.subrange(f - k, f) == d.take(k)
}

proof fn lemma_scan_found(s: Seq<u8>, d: Seq<u8>, i: nat)
    ensures
        scan_from(s, d, i) matches Some(e) ==> i < e <= s.len() && streak_of(
            s.take(e as int),
            d,
        ) == d.len(),
    decreases s.len() - i,
{
    if i < s.len() && streak_of(s.take((i + 1) as int), d) != d.len() {
        lemma_scan_found(s, d, (i + 1) as nat);
    }
}

proof fn lemma_scan_first(s: Seq<u8>, d: Seq<u8>, i: nat, e: nat)
    requires
        i < e <= s.len(),
        streak_of(s.take(e as int), d) == d.len(),
        forall|m: nat| i < m < e ==> streak_of(#[trigger] s.take(m as int), d) != d.len(),
    ensures
        scan_from(s, d, i) == Some(e),
    decreases e - i,
{
    if i + 1 < e {
        assert(streak_of(s.take((i + 1) as int), d) != d.len());
        lemma_scan_first(s, d, (i + 1) as nat, e);
    }
}

/// A completed streak ending at `j` is an occurrence of `d` ending at `j`.
proof fn lemma_complete_is_occurrence(s: Seq<u8>, d: Seq<u8>, j: int)
    requires
        0 <= j <= s.len(),
        streak_of(s.take(j), d) == d.len(),
    ensures
        occurs_at(s, d, j - d.len()),
{
    lemma_streak_sound(s.take(j), d);
    assert(s.take(j).subrange(j - d.len(), j) =~= s.subrange(j - d.len(), j));
    assert(d.take(d.len() as int) =~= d);
}

proof fn lemma_streak_through(s: Seq<u8>, d: Seq<u8>, f: int, t: int)
    requires
        occurs_at(s, d, f),
        streak_of(s.take(f), d) == 0,
        0 <= t <= d.len(),
    ensures
        streak_of(s.take(f + t), d) == t,
    decreases t,
{
    if t > 0 {
        lemma_streak_through(s, d, f, t - 1);
        assert(s.take(f + t).drop_last() =~= s.take(f + t - 1));
        assert(s.subrange(f, f + d.len())[t - 1] == d[t - 1]);
    }
}

/// A scan for a non-empty `d` that occurs first at `f` returns exactly the
/// bytes before `f` and leaves the input just past that occurrence, provided
/// the scan is not in the middle of a partial match when it reaches `f`.
/// (Were it, the streak reset would pass over the occurrence: `"aab"`
/// scanned for `"ab"`.)
pub proof fn lemma_scan_finds_first_occurrence(s: Seq<u8>, d: Seq<u8>, f: int)
    requires
        d.len() > 0,
        is_first_occurrence(s, d, f),
        streak_of(s.take(f), d) == 0,
    ensures
        scan_end(s, d) == Some((f + d.len()) as nat),
        scan_token(s, d) == Some(s.take(f)),
        scan_rest(s, d) == s.skip(f + d.len()),
{
    let e = f + d.len();
    assert forall|m: nat| 0 < m < e implies streak_of(#[trigger] s.take(m as int), d) != d.len() by {
        if streak_of(s.take(m as int), d) == d.len() {
            lemma_complete_is_occurrence(s, d, m as int);
            assert(occurs_at(s, d, m - d.len()));
        }
    }
    lemma_streak_through(s, d, f, d.len() as int);
    lemma_scan_first(s, d, 0, e as nat);
    assert(s.take(e).take(f) =~= s.take(f));
}

/// When the bytes before the first occurrence `f` of `d` do not end with a
/// proper prefix of `d`, the scan is at a fresh start when it reaches `f`,
/// so it returns exactly the bytes before `f`.
pub proof fn lemma_scan_finds_first_occurrence_after_clean_prefix(s: Seq<u8>, d: Seq<u8>, f: int)
    requires
        d.len() > 0,
        is_first_occurrence(s, d, f),
        !ends_with_partial(s, d, f),
    ensures
        scan_end(s, d) == Some((f + d.len()) as nat),
        scan_token(s, d) == Some(s.take(f)),
        scan_rest(s, d) == s.skip(f + d.len()),
{
    let k = streak_of(s.take(f), d);
    lemma_streak_sound(s.take(f), d);
    if k > 0 {
        if k == d.len() {
            lemma_complete_is_occurrence(s, d, f);
            assert(occurs_at(s, d, f - d.len()));
        }
        assert(s.take(f).subrange(f - k, f) =~= s.subrange(f - k, f));
        assert(s.subrange(f - k, f) == d.take(k as int));
    }
    lemma_scan_finds_first_occurrence(s, d, f);
}

/// A scan for a non-empty `d` that does not occur in `s` finds nothing and
/// consumes all of `s`.
pub proof fn lemma_scan_without_delimiter(s: Seq<u8>, d: Seq<u8>)
    requires
        d.len() > 0,
        forall|f: int| !#[trigger] occurs_at(s, d, f),
    ensures
        scan_end(s, d) is None,
        scan_token(s, d) is None,
        scan_rest(s, d) == Seq::<u8>::empty(),
{
    lemma_scan_found(s, d, 0);
    if let Some(e) = scan_end(s, d) {
        lemma_complete_is_occurrence(s, d, e as int);
        assert(occurs_at(s, d, e - d.len()));
    }
}

/// Two scans for `d` over `"ab" + d + "cd" + d` give `"ab"`, then `"cd"`,
/// and use up the input, when `d` does not start with one of those letters.
pub proof fn lemma_sequential_scans(d: Seq<u8>)
    requires
        d.len() > 0,
        d[0] != 97u8 && d[0] != 98u8 && d[0] != 99u8 && d[0] != 100u8,
    ensures
        scan_token(seq![97u8, 98u8] + d + seq![99u8, 100u8] + d, d) == Some(seq![97u8, 98u8]),
        scan_token(scan_rest(seq![97u8, 98u8] + d + seq![99u8, 100u8] + d, d), d) == Some(
            seq![99u8, 100u8],
        ),
        scan_rest(scan_rest(seq![97u8, 98u8] + d + seq![99u8, 100u8] + d, d), d) == Seq::<
            u8,
        >::empty(),
{
    let ab = seq![97u8, 98u8];
    let cd = seq![99u8, 100u8];
    let s = ab + d + cd + d;
    assert((d + cd + d).take(d.len() as int) =~= d);
    lemma_two_byte_prefix_scan(ab, d + cd + d, d);
    assert(s =~= ab + (d + cd + d));
    assert(s.skip(2 + d.len() as int) =~= cd + d);
    assert(d.take(d.len() as int) =~= d);
    lemma_two_byte_prefix_scan(cd, d, d);
    assert((cd + d).skip(2 + d.len() as int) =~= Seq::<u8>::empty());
}

proof fn lemma_two_byte_prefix_scan(p: Seq<u8>, t: Seq<u8>, d: Seq<u8>)
    requires
        p.len() == 2,
        d.len() > 0,
        d[0] != p[0] && d[0] != p[1],
        t.len() >= d.len(),
        t.take(d.len() as int) == d,
    ensures
        scan_token(p + t, d) == Some(p),
        scan_rest(p + t, d) == (p + t).skip(2 + d.len() as int),
{
    let s = p + t;
    assert(s.subrange(2, 2 + d.len() as int) =~= t.take(d.len() as int));
    assert forall|g: int| 0 <= g < 2 implies !#[trigger] occurs_at(s, d, g) by {
        if occurs_at(s, d, g) {
            assert(s.subrange(g, g + d.len())[0] == d[0]);
        }
    }
    assert forall|k: int| 0 < k < d.len() && k <= 2 implies #[trigger] s.subrange(2 - k, 2) != d.take(k) by {
        assert(s.subrange(2 - k, 2)[0] == s[2 - k]);
        assert(d.take(k)[0] == d[0]);
    }
    lemma_scan_finds_first_occurrence_after_clean_prefix(s, d, 2);
    assert(s.take(2) =~= p);
}

/// Skipping whitespace drops exactly the leading whitespace bytes and keeps
/// the first other byte at the front, so the next read returns it.
pub proof fn lemma_skip_ws_keeps_first_other(s: Seq<u8>) -> (n: nat)
    ensures
        n <= s.len(),
        skip_ws(s) == s.skip(n as int),
        forall|j: int| 0 <= j < n ==> is_ascii_ws(#[trigger] s[j]),
        n < s.len() ==> !is_ascii_ws(s[n as int]) && skip_ws(s)[0] == s[n as int],
    decreases s.len(),
{
    if s.len() > 0 && is_ascii_ws(s[0]) {
        let m = lemma_skip_ws_keeps_first_other(s.skip(1));
        assert(s.skip(1).skip(m as int) =~= s.skip(m as int + 1));
        assert forall|j: int| 0 <= j < m + 1 implies is_ascii_ws(#[trigger] s[j]) by {
            if j > 0 {
                assert(s[j] == s.skip(1)[j - 1]);
            }
        }
        (m + 1) as nat
    } else {
        assert(s.skip(0) =~= s);
        0
    }
}

/// After whitespace `w` and a byte `c` that is not whitespace, skipping
/// whitespace leaves `c` first and the rest `r` behind it, so the next read
/// returns `c` and leaves `r`.
pub proof fn lemma_first_read_after_whitespace(w: Seq<u8>, c: u8, r: Seq<u8>)
    requires
        forall|i: int| 0 <= i < w.len() ==> is_ascii_ws(#[trigger] w[i]),
        !is_ascii_ws(c),
    ensures
        skip_ws(w + seq![c] + r) == seq![c] + r,
        skip_ws(w + seq![c] + r)[0] == c,
        skip_ws(w + seq![c] + r).skip(1) == r,
    decreases w.len(),
{
    if w.len() == 0 {
        assert(w + seq![c] + r =~= seq![c] + r);
    } else {
        let s = w + seq![c] + r;
        assert(s[0] == w[0]);
        assert(s.skip(1) =~= w.skip(1) + seq![c] + r);
        assert forall|i: int| 0 <= i < w.skip(1).len() implies is_ascii_ws(#[trigger] w.skip(1)[i]) by {
            assert(w.skip(1)[i] == w[i + 1]);
        }
        lemma_first_read_after_whitespace(w.skip(1), c, r);
    }
    assert((seq![c] + r).skip(1) =~= r);
}

/// An incremental match of one delimiter, fed one byte at a time.
pub struct DelimiterScan {
    needle: Vec<u8>,
    consumed: Vec<u8>,
    streak: usize,
}

impl DelimiterScan {
    /// The delimiter searched for.
    pub closed spec fn needle(self) -> Seq<u8> {
        self.needle@
    }

    /// Every byte fed so far, the delimiter included.
    pub closed spec fn consumed(self) -> Seq<u8> {
        self.consumed@
    }

    /// Whether the bytes fed so far end the delimiter.
    pub open spec fn is_done(self) -> bool {
        streak_of(self.consumed(), self.needle()) == self.needle().len()
    }

    /// The stored streak agrees with the bytes fed.
    pub closed spec fn wf(self) -> bool {
        &&& self.needle@.len() > 0
        &&& self.streak == streak_of(self.consumed@, self.needle@)
    }

    pub fn new(needle: &[u8]) -> (r: Self)
        requires
            needle@.len() > 0,
        ensures
            r.needle() == needle@,
            r.consumed() == Seq::<u8>::empty(),
            r.wf(),
    {
        DelimiterScan { needle: vstd::slice::slice_to_vec(needle), consumed: Vec::new(), streak: 0 }
    }

    /// Feeds one byte; tells whether it completes the delimiter.
    pub fn push(&mut self, b: u8) -> (done: bool)
        requires
            old(self).wf(),
        ensures
            final(self).wf(),
            final(self).needle() == old(self).needle(),
            final(self).consumed() == old(self).consumed().push(b),
            done == final(self).is_done(),
    {
        let streak = if self.streak < self.needle.len() && b == self.needle[self.streak] {
            self.streak + 1
        } else {
            0
        };
        self.consumed.push(b);
        self.streak = streak;
        proof {
            assert(self.consumed@.drop_last() =~= old(self).consumed@);
        }
        streak == self.needle.len()
    }

    /// The bytes fed before the delimiter.
    pub fn into_token(self) -> (r: Vec<u8>)
        requires
            self.wf(),
            self.is_done(),
        ensures
            self.consumed().len() >= self.needle().len(),
            r@ == self.consumed().take(self.consumed().len() - self.needle().len()),
    {
        proof {
            lemma_streak_sound(self.consumed@, self.needle@);
        }
        let mut consumed = self.consumed;
        let keep = consumed.len() - self.needle.len();
        consumed.truncate(keep);
        consumed
    }
}

/// A scanner over a byte source, holding back at most one byte that was read
/// but not consumed.
pub struct Parser {
    data: Vec<u8>,
    pos: usize,
    leftover: Option<u8>,
}

impl View for Parser {
    /// The bytes not consumed yet, the held-back byte first.
    type V = Seq<u8>;

    closed spec fn view(&self) -> Seq<u8> {
        match self.leftover {
            Some(b) => seq![b] + self.data@.skip(self.pos as int),
            None => self.data@.skip(self.pos as int),
        }
    }
}

impl Parser {
    #[verifier::type_invariant]
    closed spec fn inv(self) -> bool {
        &&& self.pos <= self.data.len()
        &&& self.leftover matches Some(b) ==> self.pos > 0 && self.data@[self.pos - 1] == b
    }

    /// How many bytes of the source are consumed.
    pub closed spec fn position(self) -> int {
        if self.leftover is Some {
            self.pos - 1
        } else {
            self.pos as int
        }
    }

    /// The whole underlying source, consumed or not.
    pub closed spec fn source(self) -> Seq<u8> {
        self.data@
    }

    pub fn new(data: Vec<u8>) -> (r: Self)
        ensures
            r@ == data@,
            r.source() == data@,
    {
        let r = Parser { data, pos: 0, leftover: None };
        proof {
            assert(r.data@.skip(0) =~= r.data@);
        }
        r
    }

    /// Takes the next byte, the held-back one first; `None` at the end.
    pub fn read_byte(&mut self) -> (r: Option<u8>)
        ensures
            old(self)@.len() == 0 ==> r is None && final(self)@ == old(self)@,
            old(self)@.len() > 0 ==> r == Some(old(self)@[0]) && final(self)@ == old(self)@.skip(1),
            final(self).source() == old(self).source(),
    {
        self.next_byte()
    }

    fn next_byte(&mut self) -> (r: Option<u8>)
        ensures
            old(self)@.len() == 0 ==> r is None && final(self)@ == old(self)@,
            old(self)@.len() > 0 ==> r == Some(old(self)@[0]) && final(self)@ == old(self)@.skip(1),
            final(self).source() == old(self).source(),
            final(self).leftover is None,
            r matches Some(b) ==> final(self).pos > 0 && final(self).data@[final(self).pos - 1] == b,
    {
        proof {
            use_type_invariant(&*self);
        }
        match self.leftover {
            Some(b) => {
                self.leftover = None;
                proof {
                    assert(self@ =~= old(self)@.skip(1));
                }
                Some(b)
            },
            None => {
                if self.pos < self.data.len() {
                    let b = self.data[self.pos];
                    self.pos = self.pos + 1;
                    proof {
                        assert(self@ =~= old(self)@.skip(1));
                    }
                    Some(b)
                } else {
                    None
                }
            },
        }
    }

    /// Consumes bytes up to and including the first place where the streak
    /// scan completes `needle`, and returns them without the delimiter.
    /// Fails with `IncompleteData`, everything consumed, if the input ends first.
    pub fn consume_until(&mut self, needle: &[u8]) -> (r: Result<Vec<u8>, ProxyError>)
        requires
            needle@.len() > 0,
        ensures
            r is Ok <==> scan_end(old(self)@, needle@) is Some,
            r matches Ok(t) ==> scan_token(old(self)@, needle@) == Some(t@),
            r matches Err(e) ==> e == ProxyError::IncompleteData,
            final(self)@ == scan_rest(old(self)@, needle@),
            final(self).source() == old(self).source(),
    {
        let ghost s0 = self@;
        let ghost d = needle@;
        let mut scan = DelimiterScan::new(needle);
        proof {
            assert(s0.take(0) =~= Seq::<u8>::empty());
            assert(s0.skip(0) =~= s0);
        }
        loop
            invariant
                scan.wf(),
                s0 == old(self)@,
                d == needle@,
                scan.needle() == d,
                d.len() > 0,
                scan.consumed().len() <= s0.len(),
                scan.consumed() == s0.take(scan.consumed().len() as int),
                self@ == s0.skip(scan.consumed().len() as int),
                scan_end(s0, d) == scan_from(s0, d, scan.consumed().len()),
                self.source() == old(self).source(),
            decreases self@.len(),
        {
            let ghost i: int = scan.consumed().len() as int;
            match self.next_byte() {
                None => {
                    proof {
                        assert(s0.len() == i);
                        assert(scan_from(s0, d, i as nat) is None);
                    }
                    return Err(ProxyError::IncompleteData);
                },
                Some(b) => {
                    let done = scan.push(b);
                    proof {
                        assert(scan.consumed() =~= s0.take(i + 1));
                        assert(self@ =~= s0.skip(i + 1));
                    }
                    if done {
                        proof {
                            lemma_streak_sound(scan.consumed(), d);
                            assert(scan_from(s0, d, i as nat) == Some((i + 1) as nat));
                            assert(s0.take(i + 1).take(i + 1 - d.len()) =~= s0.take(i + 1 - d.len()));
                        }
                        return Ok(scan.into_token());
                    }
                },
            }
        }
    }

    /// Consumes and returns everything that is left.
    pub fn consume_until_end(&mut self) -> (r: Vec<u8>)
        ensures
            r@ == old(self)@,
            final(self)@.len() == 0,
            final(self).source() == old(self).source(),
    {
        let mut out: Vec<u8> = Vec::new();
        loop
            invariant
                out@ + self@ == old(self)@,
                self.source() == old(self).source(),
            decreases self@.len(),
        {
            let ghost rest = self@;
            match self.next_byte() {
                None => {
                    proof {
                        assert(out@ =~= out@ + self@);
                    }
                    return out;
                },
                Some(b) => {
                    let ghost before = out@;
                    out.push(b);
                    proof {
                        assert(out@ + self@ =~= before + rest);
                    }
                },
            }
        }
    }

    /// Consumes leading ASCII whitespace. The first other byte is held back,
    /// so the next read returns it; reaching the end is no failure.
    pub fn consume_whitespaces(&mut self)
        ensures
            final(self)@ == skip_ws(old(self)@),
            final(self).source() == old(self).source(),
    {
        loop
            invariant
                skip_ws(self@) == skip_ws(old(self)@),
                self.source() == old(self).source(),
            decreases self@.len(),
        {
            proof {
                use_type_invariant(&*self);
            }
            let ghost before = self@;
            match self.next_byte() {
                None => {
                    return;
                },
                Some(b) => {
                    proof {
                        use_type_invariant(&*self);
                    }
                    if !(b == 9 || b == 10 || b == 11 || b == 12 || b == 13 || b == 32) {
                        self.leftover = Some(b);
                        proof {
                            assert(self@ =~= before);
                        }
                        return;
                    }
                },
            }
        }
    }

    /// The underlying source; the bytes not consumed yet are its suffix
    /// past `position`.
    pub fn inner(&self) -> (r: &Vec<u8>)
        ensures
            r@ == self.source(),
            0 <= self.position() <= r@.len(),
            self@ == r@.skip(self.position()),
    {
        proof {
            use_type_invariant(self);
            assert(self@ =~= self.source().skip(self.position()));
        }
        &self.data
    }

    /// Gives the underlying source back with the number of bytes consumed,
    /// so that the unread bytes are the source past that count.
    pub fn into_inner(self) -> (r: (Vec<u8>, usize))
        ensures
            r.0@ == self.source(),
            r.1 == self.position(),
            r.1 <= r.0@.len(),
            self@ == r.0@.skip(r.1 as int),
    {
        proof {
            use_type_invariant(&self);
            assert(self@ =~= self.source().skip(self.position()));
        }
        let consumed = match self.leftover {
            Some(_) => self.pos - 1,
            None => self.pos,
        };
        (self.data, consumed)
    }
}

} // verus!
