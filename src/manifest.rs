//! The shape of manifest text that the manifest reader accepts without
//! failing hard: every line is blank, a comment, a `/set` line, or an entry
//! whose first word is a path with a `/` that does not start with `/`; every
//! keyword after the first word is one whose value the reader can hold.
use vstd::prelude::*;

use crate::desc::chars_of;

verus! {

pub open spec fn bytes_view(v: Seq<Vec<u8>>) -> Seq<Seq<u8>> {
    v.map_values(|w: Vec<u8>| w@)
}

/// Splitting a prefix at `sep`: the finished segments and the open one.
pub open spec fn split_pair(s: Seq<u8>, sep: u8) -> (Seq<Seq<u8>>, Seq<u8>)
    decreases s.len(),
{
    if s.len() == 0 {
        (seq![], seq![])
    } else {
        let (done, cur) = split_pair(s.drop_last(), sep);
        if s.last() == sep {
            (done.push(cur), seq![])
        } else {
            (done, cur.push(s.last()))
        }
    }
}

/// The segments of `s` between occurrences of `sep`, empty ones included.
pub open spec fn segments(s: Seq<u8>, sep: u8) -> Seq<Seq<u8>> {
    split_pair(s, sep).0.push(split_pair(s, sep).1)
}

/// The non-empty members of `ws`, in order.
pub open spec fn nonempty(ws: Seq<Seq<u8>>) -> Seq<Seq<u8>>
    decreases ws.len(),
{
    if ws.len() == 0 {
        seq![]
    } else if ws.last().len() > 0 {
        nonempty(ws.drop_last()).push(ws.last())
    } else {
        nonempty(ws.drop_last())
    }
}

/// The words of a line: its non-empty runs between spaces.
pub open spec fn words(l: Seq<u8>) -> Seq<Seq<u8>> {
    nonempty(segments(l, 0x20u8))
}

/// Whether the bytes `w` spell the ASCII text `lit`.
pub open spec fn is_word(w: Seq<u8>, lit: Seq<char>) -> bool {
    w.len() == lit.len() && forall|i: int| 0 <= i < w.len() ==> w[i] as u32 == lit[i] as u32
}

pub open spec fn all_in(w: Seq<u8>, lo: u8, hi: u8) -> bool {
    forall|i: int| 0 <= i < w.len() ==> lo <= #[trigger] w[i] <= hi
}

pub open spec fn is_hex_byte(c: u8) -> bool {
    (0x30u8 <= c <= 0x39u8) || (0x61u8 <= c <= 0x66u8) || (0x41u8 <= c <= 0x46u8)
}

/// The number that a run of decimal digit bytes writes.
pub open spec fn dec_value(v: Seq<u8>) -> nat
    decreases v.len(),
{
    if v.len() == 0 {
        0
    } else {
        dec_value(v.drop_last()) * 10 + (v.last() - 0x30u8) as nat
    }
}

/// Decimal digits (possibly none) that write a number of at most `max`.
pub open spec fn dec_at_most(v: Seq<u8>, max: nat) -> bool {
    all_in(v, 0x30u8, 0x39u8) && dec_value(v) <= max
}

/// The largest `time` seconds that the reader adds to the epoch without
/// overflow, whatever the fraction (which adds at most four seconds).
pub const TIME_SECS_MAX: u64 = 9223372036854775802;

proof fn lemma_dec_prefix_le(v: Seq<u8>, i: int)
    requires
        0 <= i <= v.len(),
        all_in(v, 0x30u8, 0x39u8),
    ensures
        dec_value(v.subrange(0, i)) <= dec_value(v),
    decreases v.len() - i,
{
    if i < v.len() {
        lemma_dec_prefix_le(v, i + 1);
        assert(v.subrange(0, i + 1).drop_last() =~= v.subrange(0, i));
    } else {
        assert(v.subrange(0, i) =~= v);
    }
}

pub open spec fn is_format(w: Seq<u8>) -> bool {
    is_word(w, "native"@) || is_word(w, "386bsd"@) || is_word(w, "4bsd"@) || is_word(w, "bsdos"@)
        || is_word(w, "freebsd"@) || is_word(w, "hpux"@) || is_word(w, "isc"@) || is_word(w, "linux"@)
        || is_word(w, "netbsd"@) || is_word(w, "osf1"@) || is_word(w, "sco"@) || is_word(w, "solaris"@)
        || is_word(w, "sunos"@) || is_word(w, "svr3"@) || is_word(w, "svr4"@) || is_word(w, "ultrix"@)
}

/// A device reference: a known format, then at least a major and a minor
/// field after commas.
pub open spec fn device_ok(v: Seq<u8>) -> bool {
    match first_index(v, 0x2cu8, 0) {
        Some(a) => is_format(v.subrange(0, a)) && first_index(v, 0x2cu8, a + 1) is Some,
        None => false,
    }
}

pub open spec fn all_hex(w: Seq<u8>) -> bool {
    forall|i: int| 0 <= i < w.len() ==> is_hex_byte(#[trigger] w[i])
}

/// The first index of `c` in `w` from `i` on.
pub open spec fn first_index(w: Seq<u8>, c: u8, i: int) -> Option<int>
    decreases w.len() - i,
{
    if i < 0 || i >= w.len() {
        None
    } else if w[i] == c {
        Some(i)
    } else {
        first_index(w, c, i + 1)
    }
}

proof fn lemma_first_index_bounds(w: Seq<u8>, c: u8, i: int)
    ensures
        first_index(w, c, i) matches Some(j) ==> i <= j < w.len() && w[j] == c,
    decreases w.len() - i,
{
    if 0 <= i < w.len() && w[i] != c {
        lemma_first_index_bounds(w, c, i + 1);
    }
}

/// Searching a tail of `v` from its start finds what searching `v` from the
/// tail's start finds, shifted.
proof fn lemma_first_index_shift(v: Seq<u8>, c: u8, a: int, s: int, w: Seq<u8>)
    requires
        0 <= a <= v.len(),
        0 <= s,
        s + v.len() == w.len(),
        v == w.subrange(s, w.len() as int),
    ensures
        (first_index(v, c, a) is Some) == (first_index(w.subrange(s + a, w.len() as int), c, 0) is Some),
    decreases v.len() - a,
{
    let t = w.subrange(s + a, w.len() as int);
    assert(t =~= v.subrange(a, v.len() as int));
    lemma_first_index_tail(v, c, a, t);
}

proof fn lemma_first_index_tail(v: Seq<u8>, c: u8, a: int, t: Seq<u8>)
    requires
        0 <= a <= v.len(),
        t == v.subrange(a, v.len() as int),
    ensures
        (first_index(v, c, a) is Some) == (first_index(t, c, 0) is Some),
{
    lemma_first_index_tail_from(v, c, a, t, a);
}

proof fn lemma_first_index_tail_from(v: Seq<u8>, c: u8, a: int, t: Seq<u8>, i: int)
    requires
        0 <= a <= i <= v.len(),
        t == v.subrange(a, v.len() as int),
    ensures
        (first_index(v, c, i) is Some) == (first_index(t, c, i - a) is Some),
    decreases v.len() - i,
{
    if i < v.len() {
        assert(t[i - a] == v[i]);
        lemma_first_index_tail_from(v, c, a, t, i + 1);
    }
}

proof fn lemma_nonempty_members(ws: Seq<Seq<u8>>)
    ensures
        forall|j: int| 0 <= j < nonempty(ws).len() ==> (#[trigger] nonempty(ws)[j]).len() > 0,
    decreases ws.len(),
{
    if ws.len() > 0 {
        lemma_nonempty_members(ws.drop_last());
        let p = nonempty(ws.drop_last());
        if ws.last().len() > 0 {
            assert forall|j: int| 0 <= j < p.push(ws.last()).len() implies (#[trigger] p.push(ws.last())[j]).len() > 0 by {
                if j < p.len() {
                    assert(p.push(ws.last())[j] == p[j]);
                }
            }
        }
    }
}

/// A decimal number of at most `max` digits.
pub open spec fn short_digits(v: Seq<u8>, max: nat) -> bool {
    v.len() <= max && all_in(v, 0x30u8, 0x39u8)
}

pub open spec fn is_flag_key(k: Seq<u8>) -> bool {
    is_word(k, "ignore"@) || is_word(k, "nochange"@) || is_word(k, "optional"@)
}

/// Whether `key=v` is a keyword whose value the reader holds.
pub open spec fn key_value_ok(k: Seq<u8>, v: Seq<u8>) -> bool {
    if is_flag_key(k) {
        true
    } else if is_word(k, "type"@) {
        is_word(v, "block"@) || is_word(v, "char"@) || is_word(v, "dir"@) || is_word(v, "fifo"@)
            || is_word(v, "file"@) || is_word(v, "link"@) || is_word(v, "socket"@)
    } else if is_word(k, "size"@) || is_word(k, "uid"@) || is_word(k, "gid"@) || is_word(k, "nlink"@)
        || is_word(k, "inode"@) || is_word(k, "cksum"@) {
        dec_at_most(v, u64::MAX as nat)
    } else if is_word(k, "time"@) {
        match first_index(v, 0x2eu8, 0) {
            Some(j) => dec_at_most(v.subrange(0, j), TIME_SECS_MAX as nat) && dec_at_most(
                v.subrange(j + 1, v.len() as int),
                u32::MAX as nat,
            ),
            None => false,
        }
    } else if is_word(k, "mode"@) {
        (v.len() == 3 && all_in(v, 0x30u8, 0x37u8)) || (v.len() == 4 && all_in(v.subrange(1, 4), 0x30u8, 0x37u8))
    } else if is_word(k, "link"@) || is_word(k, "uname"@) || is_word(k, "gname"@) || is_word(k, "flags"@)
        || is_word(k, "contents"@) {
        true
    } else if is_word(k, "md5"@) || is_word(k, "md5digest"@) {
        v.len() == 32 && all_hex(v)
    } else if is_word(k, "sha256"@) || is_word(k, "sha256digest"@) {
        v.len() == 64 && all_hex(v)
    } else if is_word(k, "sha1"@) || is_word(k, "sha1digest"@) || is_word(k, "rmd160"@) || is_word(
        k,
        "rmd160digest"@,
    ) || is_word(k, "ripemd160digest"@) {
        v.len() == 40 && all_hex(v)
    } else if is_word(k, "sha384"@) || is_word(k, "sha384digest"@) {
        v.len() == 96 && all_hex(v)
    } else if is_word(k, "sha512"@) || is_word(k, "sha512digest"@) {
        v.len() == 128 && all_hex(v)
    } else if is_word(k, "device"@) || is_word(k, "resdevice"@) {
        device_ok(v)
    } else {
        false
    }
}

/// Whether a keyword word is one the reader holds.
pub open spec fn keyword_ok(w: Seq<u8>) -> bool {
    match first_index(w, 0x3du8, 0) {
        None => is_flag_key(w),
        Some(i) => key_value_ok(w.subrange(0, i), w.subrange(i + 1, w.len() as int)),
    }
}

/// Whether a first word names a `/set` line or a path with a `/` that does
/// not start with `/`.
pub open spec fn head_ok(w: Seq<u8>) -> bool {
    is_word(w, "/set"@) || (w.len() > 0 && w[0] != 0x2fu8 && first_index(w, 0x2fu8, 0) is Some)
}

pub open spec fn line_ok(l: Seq<u8>) -> bool {
    let ws = words(l);
    ws.len() == 0 || ws[0][0] == 0x23u8 || (head_ok(ws[0]) && forall|j: int|
        1 <= j < ws.len() ==> keyword_ok(#[trigger] ws[j]))
}

/// Whether every line of a manifest text has a shape the reader accepts
/// without failing hard.
pub open spec fn manifest_safe(b: Seq<u8>) -> bool {
    forall|i: int| 0 <= i < segments(b, 0x0au8).len() ==> line_ok(#[trigger] segments(b, 0x0au8)[i])
}

/// Splits `s` at every `sep`.
pub fn split_bytes(s: &Vec<u8>, sep: u8) -> (r: Vec<Vec<u8>>)
    ensures
        bytes_view(r@) == segments(s@, sep),
{
    let mut done: Vec<Vec<u8>> = Vec::new();
    let mut cur: Vec<u8> = Vec::new();
    let mut i: usize = 0;
    assert(s@.subrange(0, 0) =~= Seq::<u8>::empty());
    assert(bytes_view(done@) =~= Seq::<Seq<u8>>::empty());
    while i < s.len()
        invariant
            0 <= i <= s@.len(),
            (bytes_view(done@), cur@) == split_pair(s@.subrange(0, i as int), sep),
        decreases s@.len() - i,
    {
        let c = s[i];
        assert(s@.subrange(0, i + 1).drop_last() =~= s@.subrange(0, i as int));
        if c == sep {
            let ghost old_done = done@;
            let seg = cur;
            cur = Vec::new();
            done.push(seg);
            assert(bytes_view(done@) =~= bytes_view(old_done).push(seg@));
        } else {
            cur.push(c);
        }
        i = i + 1;
    }
    assert(s@.subrange(0, s@.len() as int) =~= s@);
    let ghost old_done = done@;
    done.push(cur);
    assert(bytes_view(done@) =~= bytes_view(old_done).push(cur@));
    done
}

/// The words of the line `l`.
pub fn words_of(l: &Vec<u8>) -> (r: Vec<Vec<u8>>)
    ensures
        bytes_view(r@) == words(l@),
{
    let segs = split_bytes(l, 0x20);
    let mut out: Vec<Vec<u8>> = Vec::new();
    let mut i: usize = 0;
    assert(bytes_view(segs@).subrange(0, 0) =~= Seq::<Seq<u8>>::empty());
    assert(bytes_view(out@) =~= Seq::<Seq<u8>>::empty());
    while i < segs.len()
        invariant
            0 <= i <= segs@.len(),
            bytes_view(out@) == nonempty(bytes_view(segs@).subrange(0, i as int)),
        decreases segs@.len() - i,
    {
        let ghost next = bytes_view(segs@).subrange(0, i + 1);
        assert(next.drop_last() =~= bytes_view(segs@).subrange(0, i as int));
        assert(next.last() == segs@[i as int]@);
        if segs[i].len() > 0 {
            let ghost old_out = out@;
            let mut w: Vec<u8> = Vec::new();
            let mut j: usize = 0;
            while j < segs[i].len()
                invariant
                    0 <= j <= segs@[i as int]@.len(),
                    i < segs@.len(),
                    w@ == segs@[i as int]@.subrange(0, j as int),
                decreases segs@[i as int]@.len() - j,
            {
                w.push(segs[i][j]);
                j = j + 1;
                assert(w@ =~= segs@[i as int]@.subrange(0, j as int));
            }
            assert(w@ =~= segs@[i as int]@);
            out.push(w);
            assert(bytes_view(out@) =~= bytes_view(old_out).push(w@));
        }
        i = i + 1;
    }
    assert(bytes_view(segs@).subrange(0, segs@.len() as int) =~= bytes_view(segs@));
    out
}

/// Whether `w[lo..hi]` spells the ASCII text `lit`.
fn word_is(w: &Vec<u8>, lo: usize, hi: usize, lit: &str) -> (r: bool)
    requires
        lo <= hi <= w@.len(),
    ensures
        r == is_word(w@.subrange(lo as int, hi as int), lit@),
{
    let c = chars_of(lit);
    if hi - lo != c.len() {
        return false;
    }
    let mut i: usize = 0;
    while i < c.len()
        invariant
            hi - lo == c@.len(),
            lo <= hi <= w@.len(),
            c@ == lit@,
            0 <= i <= c@.len(),
            forall|j: int| 0 <= j < i ==> w@[lo + j] as u32 == c@[j] as u32,
        decreases c@.len() - i,
    {
        if w[lo + i] as u32 != c[i] as u32 {
            assert(w@.subrange(lo as int, hi as int)[i as int] == w@[lo + i]);
            return false;
        }
        i = i + 1;
    }
    assert forall|j: int| 0 <= j < hi - lo implies w@.subrange(lo as int, hi as int)[j] as u32 == lit@[j] as u32 by {
        assert(w@.subrange(lo as int, hi as int)[j] == w@[lo + j]);
    }
    true
}

/// Whether every byte of `w[lo..hi]` lies in `a..=b`.
fn range_in(w: &Vec<u8>, lo: usize, hi: usize, a: u8, b: u8) -> (r: bool)
    requires
        lo <= hi <= w@.len(),
    ensures
        r == all_in(w@.subrange(lo as int, hi as int), a, b),
{
    let mut i: usize = lo;
    while i < hi
        invariant
            lo <= i <= hi <= w@.len(),
            forall|j: int| lo <= j < i ==> a <= #[trigger] w@[j] <= b,
        decreases hi - i,
    {
        if w[i] < a || w[i] > b {
            assert(w@.subrange(lo as int, hi as int)[i - lo] == w@[i as int]);
            return false;
        }
        i = i + 1;
    }
    assert forall|j: int| 0 <= j < hi - lo implies a <= #[trigger] w@.subrange(lo as int, hi as int)[j] <= b by {
        assert(w@.subrange(lo as int, hi as int)[j] == w@[lo + j]);
    }
    true
}

fn hex_in(w: &Vec<u8>, lo: usize, hi: usize) -> (r: bool)
    requires
        lo <= hi <= w@.len(),
    ensures
        r == all_hex(w@.subrange(lo as int, hi as int)),
{
    let mut i: usize = lo;
    while i < hi
        invariant
            lo <= i <= hi <= w@.len(),
            forall|j: int| lo <= j < i ==> is_hex_byte(#[trigger] w@[j]),
        decreases hi - i,
    {
        let c = w[i];
        if !((0x30 <= c && c <= 0x39) || (0x61 <= c && c <= 0x66) || (0x41 <= c && c <= 0x46)) {
            assert(w@.subrange(lo as int, hi as int)[i - lo] == w@[i as int]);
            return false;
        }
        i = i + 1;
    }
    assert forall|j: int| 0 <= j < hi - lo implies is_hex_byte(#[trigger] w@.subrange(lo as int, hi as int)[j]) by {
        assert(w@.subrange(lo as int, hi as int)[j] == w@[lo + j]);
    }
    true
}

/// Whether `w[lo..hi]` is decimal digits writing a number of at most `max`.
fn dec_le(w: &Vec<u8>, lo: usize, hi: usize, max: u64) -> (r: bool)
    requires
        lo <= hi <= w@.len(),
    ensures
        r == dec_at_most(w@.subrange(lo as int, hi as int), max as nat),
{
    let ghost v = w@.subrange(lo as int, hi as int);
    let mut acc: u64 = 0;
    let mut i: usize = lo;
    while i < hi
        invariant
            lo <= i <= hi <= w@.len(),
            v == w@.subrange(lo as int, hi as int),
            all_in(v.subrange(0, i - lo), 0x30u8, 0x39u8),
            acc as nat == dec_value(v.subrange(0, i - lo)),
            acc <= max,
        decreases hi - i,
    {
        let c = w[i];
        assert(v[i - lo] == c);
        assert(v.subrange(0, i + 1 - lo).drop_last() =~= v.subrange(0, i - lo));
        if c < 0x30 || c > 0x39 {
            assert(!all_in(v, 0x30u8, 0x39u8)) by {
                assert(!(0x30u8 <= v[i - lo] <= 0x39u8));
            }
            return false;
        }
        let d = (c - 0x30) as u64;
        if d > max || acc > (max - d) / 10 {
            proof {
                if d <= max {
                    assert(acc * 10 + d > max) by (nonlinear_arith)
                        requires acc > (max - d) / 10, d <= max;
                }
                if all_in(v, 0x30u8, 0x39u8) {
                    lemma_dec_prefix_le(v, i + 1 - lo);
                }
            }
            return false;
        }
        assert(acc * 10 + d <= max) by (nonlinear_arith)
            requires acc <= (max - d) / 10, d <= max;
        acc = acc * 10 + d;
        i = i + 1;
        assert(all_in(v.subrange(0, i - lo), 0x30u8, 0x39u8)) by {
            assert forall|j: int| 0 <= j < i - lo implies 0x30u8 <= #[trigger] v.subrange(0, i - lo)[j] <= 0x39u8 by {
                if j < i - 1 - lo {
                    assert(v.subrange(0, i - lo)[j] == v.subrange(0, i - 1 - lo)[j]);
                }
            }
        }
    }
    assert(v.subrange(0, hi - lo) =~= v);
    true
}

/// Whether `w[lo..hi]` names a device format.
fn format_word(w: &Vec<u8>, lo: usize, hi: usize) -> (r: bool)
    requires
        lo <= hi <= w@.len(),
    ensures
        r == is_format(w@.subrange(lo as int, hi as int)),
{
    word_is(w, lo, hi, "native") || word_is(w, lo, hi, "386bsd") || word_is(w, lo, hi, "4bsd")
        || word_is(w, lo, hi, "bsdos") || word_is(w, lo, hi, "freebsd") || word_is(w, lo, hi, "hpux")
        || word_is(w, lo, hi, "isc") || word_is(w, lo, hi, "linux") || word_is(w, lo, hi, "netbsd")
        || word_is(w, lo, hi, "osf1") || word_is(w, lo, hi, "sco") || word_is(w, lo, hi, "solaris")
        || word_is(w, lo, hi, "sunos") || word_is(w, lo, hi, "svr3") || word_is(w, lo, hi, "svr4")
        || word_is(w, lo, hi, "ultrix")
}

/// The first index of `c` in `w[lo..hi]`, counted from `lo`.
fn find_byte(w: &Vec<u8>, lo: usize, hi: usize, c: u8) -> (r: Option<usize>)
    requires
        lo <= hi <= w@.len(),
    ensures
        match first_index(w@.subrange(lo as int, hi as int), c, 0) {
            Some(j) => r == Some(j as usize) && 0 <= j < hi - lo,
            None => r is None,
        },
{
    let ghost v = w@.subrange(lo as int, hi as int);
    proof {
        lemma_first_index_bounds(v, c, 0);
    }
    let mut i: usize = lo;
    while i < hi
        invariant
            lo <= i <= hi <= w@.len(),
            v == w@.subrange(lo as int, hi as int),
            first_index(v, c, i - lo) == first_index(v, c, 0),
        decreases hi - i,
    {
        assert(v[i - lo] == w@[i as int]);
        if w[i] == c {
            return Some(i - lo);
        }
        i = i + 1;
    }
    None
}

fn flag_key(w: &Vec<u8>, lo: usize, hi: usize) -> (r: bool)
    requires
        lo <= hi <= w@.len(),
    ensures
        r == is_flag_key(w@.subrange(lo as int, hi as int)),
{
    word_is(w, lo, hi, "ignore") || word_is(w, lo, hi, "nochange") || word_is(w, lo, hi, "optional")
}

/// Whether the keyword word `w` is one the reader holds.
pub fn check_keyword(w: &Vec<u8>) -> (r: bool)
    ensures
        r == keyword_ok(w@),
{
    let n = w.len();
    assert(w@.subrange(0, n as int) =~= w@);
    let i = match find_byte(w, 0, n, 0x3d) {
        None => {
            return flag_key(w, 0, n);
        },
        Some(i) => i,
    };
    let ghost k = w@.subrange(0, i as int);
    let ghost v = w@.subrange(i + 1, n as int);
    assert(first_index(w@, 0x3du8, 0) == Some(i as int));
    let s = i + 1;
    if flag_key(w, 0, i) {
        return true;
    }
    if word_is(w, 0, i, "type") {
        return word_is(w, s, n, "block") || word_is(w, s, n, "char") || word_is(w, s, n, "dir")
            || word_is(w, s, n, "fifo") || word_is(w, s, n, "file") || word_is(w, s, n, "link")
            || word_is(w, s, n, "socket");
    }
    if word_is(w, 0, i, "size") || word_is(w, 0, i, "uid") || word_is(w, 0, i, "gid") || word_is(w, 0, i, "nlink")
        || word_is(w, 0, i, "inode") || word_is(w, 0, i, "cksum") {
        return dec_le(w, s, n, u64::MAX);
    }
    if word_is(w, 0, i, "time") {
        match find_byte(w, s, n, 0x2e) {
            None => {
                return false;
            },
            Some(j) => {
                assert(v.subrange(0, j as int) =~= w@.subrange(s as int, (s + j) as int));
                assert(v.subrange(j + 1, v.len() as int) =~= w@.subrange((s + j + 1) as int, n as int));
                return dec_le(w, s, s + j, TIME_SECS_MAX) && dec_le(w, s + j + 1, n, 0xffff_ffff);
            },
        }
    }
    if word_is(w, 0, i, "mode") {
        if n - s == 3 {
            return range_in(w, s, n, 0x30, 0x37);
        } else if n - s == 4 {
            assert(v.subrange(1, 4) =~= w@.subrange(s + 1, n as int));
            return range_in(w, s + 1, n, 0x30, 0x37);
        } else {
            return false;
        }
    }
    if word_is(w, 0, i, "link") || word_is(w, 0, i, "uname") || word_is(w, 0, i, "gname") || word_is(w, 0, i, "flags")
        || word_is(w, 0, i, "contents") {
        return true;
    }
    if word_is(w, 0, i, "md5") || word_is(w, 0, i, "md5digest") {
        return n - s == 32 && hex_in(w, s, n);
    }
    if word_is(w, 0, i, "sha256") || word_is(w, 0, i, "sha256digest") {
        return n - s == 64 && hex_in(w, s, n);
    }
    if word_is(w, 0, i, "sha1") || word_is(w, 0, i, "sha1digest") || word_is(w, 0, i, "rmd160") || word_is(
        w,
        0,
        i,
        "rmd160digest",
    ) || word_is(w, 0, i, "ripemd160digest") {
        return n - s == 40 && hex_in(w, s, n);
    }
    if word_is(w, 0, i, "sha384") || word_is(w, 0, i, "sha384digest") {
        return n - s == 96 && hex_in(w, s, n);
    }
    if word_is(w, 0, i, "sha512") || word_is(w, 0, i, "sha512digest") {
        return n - s == 128 && hex_in(w, s, n);
    }
    if word_is(w, 0, i, "device") || word_is(w, 0, i, "resdevice") {
        return match find_byte(w, s, n, 0x2c) {
            None => false,
            Some(a) => {
                assert(v.subrange(0, a as int) =~= w@.subrange(s as int, (s + a) as int));
                if !format_word(w, s, s + a) {
                    false
                } else {
                    let r = find_byte(w, s + a + 1, n, 0x2c);
                    proof {
                        lemma_first_index_shift(v, 0x2cu8, a + 1, s as int, w@);
                    }
                    r.is_some()
                }
            },
        };
    }
    false
}

/// Whether the first word of a line is `/set` or a path as `head_ok` says.
fn check_head(w: &Vec<u8>) -> (r: bool)
    ensures
        r == head_ok(w@),
{
    let n = w.len();
    assert(w@.subrange(0, n as int) =~= w@);
    if word_is(w, 0, n, "/set") {
        return true;
    }
    n > 0 && w[0] != 0x2f && find_byte(w, 0, n, 0x2f).is_some()
}

/// Whether the line `l` has a shape the reader accepts.
pub fn check_line(l: &Vec<u8>) -> (r: bool)
    ensures
        r == line_ok(l@),
{
    let ws = words_of(l);
    let ghost wv = bytes_view(ws@);
    proof {
        lemma_nonempty_members(segments(l@, 0x20u8));
    }
    if ws.len() == 0 {
        return true;
    }
    assert(wv[0] == ws@[0]@);
    assert(wv[0].len() > 0);
    if ws[0][0] == 0x23 {
        return true;
    }
    assert(wv[0][0] == ws@[0]@[0]);
    if !check_head(&ws[0]) {
        return false;
    }
    let mut j: usize = 1;
    while j < ws.len()
        invariant
            1 <= j <= ws@.len(),
            wv == bytes_view(ws@),
            wv == words(l@),
            wv[0][0] != 0x23u8,
            head_ok(wv[0]),
            forall|m: int| 1 <= m < j ==> keyword_ok(#[trigger] wv[m]),
        decreases ws@.len() - j,
    {
        assert(wv[j as int] == ws@[j as int]@);
        if !check_keyword(&ws[j]) {
            assert(!keyword_ok(wv[j as int]));
            return false;
        }
        j = j + 1;
    }
    true
}

/// Whether every line of the manifest text `b` has a shape the reader accepts.
pub fn check_manifest(b: &Vec<u8>) -> (r: bool)
    ensures
        r == manifest_safe(b@),
{
    let lines = split_bytes(b, 0x0a);
    let ghost lv = bytes_view(lines@);
    let mut i: usize = 0;
    while i < lines.len()
        invariant
            0 <= i <= lines@.len(),
            lv == bytes_view(lines@),
            lv == segments(b@, 0x0au8),
            forall|m: int| 0 <= m < i ==> line_ok(#[trigger] lv[m]),
        decreases lines@.len() - i,
    {
        assert(lv[i as int] == lines@[i as int]@);
        if !check_line(&lines[i]) {
            return false;
        }
        i = i + 1;
    }
    true
}

} // verus!
