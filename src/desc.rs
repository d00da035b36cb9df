//! A schema-driven decoder for the descriptor format.
//!
//! A descriptor text is a sequence of sections separated by blank lines. Each
//! section is a key line `%KEY%` followed by value lines. A record is decoded
//! by matching each field of a schema to the first section with its key;
//! sections that no field names are skipped.
use vstd::prelude::*;

use crate::error::{Error, ErrorKind, KindModel};

verus! {

/// The characters of each line, in order.
pub open spec fn lines_view(v: Seq<Vec<char>>) -> Seq<Seq<char>> {
    v.map_values(|l: Vec<char>| l@)
}

/// Splitting a prefix of a text at newlines: the complete lines, and the
/// line still open at its end.
pub open spec fn split_acc(s: Seq<char>) -> (Seq<Seq<char>>, Seq<char>)
    decreases s.len(),
{
    if s.len() == 0 {
        (seq![], seq![])
    } else {
        let (done, cur) = split_acc(s.drop_last());
        if s.last() == '\n' {
            (done.push(cur), seq![])
        } else {
            (done, cur.push(s.last()))
        }
    }
}

/// The lines of a text; a final line without a newline counts.
pub open spec fn lines_of(s: Seq<char>) -> Seq<Seq<char>> {
    let (done, cur) = split_acc(s);
    if cur.len() == 0 {
        done
    } else {
        done.push(cur)
    }
}

/// Splits `text` into lines at each newline.
pub fn split_lines(text: &Vec<char>) -> (r: Vec<Vec<char>>)
    ensures
        lines_view(r@) == lines_of(text@),
{
    let mut done: Vec<Vec<char>> = Vec::new();
    let mut cur: Vec<char> = Vec::new();
    let mut i: usize = 0;
    while i < text.len()
        invariant
            0 <= i <= text@.len(),
            (lines_view(done@), cur@) == split_acc(text@.subrange(0, i as int)),
        decreases text@.len() - i,
    {
        let c = text[i];
        assert(text@.subrange(0, i + 1).drop_last() =~= text@.subrange(0, i as int));
        if c == '\n' {
            let ghost old_done = done@;
            let line = cur;
            cur = Vec::new();
            done.push(line);
            assert(lines_view(done@) =~= lines_view(old_done).push(line@));
        } else {
            cur.push(c);
        }
        i = i + 1;
    }
    assert(text@.subrange(0, text@.len() as int) =~= text@);
    if cur.len() > 0 {
        let ghost old_done = done@;
        done.push(cur);
        assert(lines_view(done@) =~= lines_view(old_done).push(cur@));
    }
    done
}

/// One section: its key, and its value lines in order.
#[derive(Debug)]
pub struct Section {
    pub key: Vec<char>,
    pub values: Vec<Vec<char>>,
}

/// The model of a section.
pub struct SectionModel {
    pub key: Seq<char>,
    pub values: Seq<Seq<char>>,
}

impl View for Section {
    type V = SectionModel;

    open spec fn view(&self) -> SectionModel {
        SectionModel { key: self.key@, values: lines_view(self.values@) }
    }
}

pub open spec fn sections_view(v: Seq<Section>) -> Seq<SectionModel> {
    v.map_values(|s: Section| s@)
}

/// Whether a line has the shape `%KEY%` with a non-empty key.
pub open spec fn is_key_line(l: Seq<char>) -> bool {
    l.len() >= 3 && l[0] == '%' && l[l.len() - 1] == '%'
}

/// The key named by a key line.
pub open spec fn key_of(l: Seq<char>) -> Seq<char> {
    l.subrange(1, l.len() - 1)
}

/// The state of the section parser after some lines: the sections so far,
/// and whether the last one still takes value lines.
pub struct ParseState {
    pub sections: Seq<SectionModel>,
    pub open: bool,
}

/// One line fed to the section parser; `None` is a line where a key was due
/// and none stands.
pub open spec fn parse_step(st: ParseState, l: Seq<char>) -> Option<ParseState> {
    if l.len() == 0 {
        Some(ParseState { sections: st.sections, open: false })
    } else if st.open {
        let last = st.sections.last();
        Some(ParseState {
            sections: st.sections.update(
                st.sections.len() - 1,
                SectionModel { key: last.key, values: last.values.push(l) },
            ),
            open: true,
        })
    } else if is_key_line(l) {
        Some(ParseState {
            sections: st.sections.push(SectionModel { key: key_of(l), values: seq![] }),
            open: true,
        })
    } else {
        None
    }
}

/// The section parser run over a sequence of lines.
pub open spec fn parse_lines(ls: Seq<Seq<char>>) -> Option<ParseState>
    decreases ls.len(),
{
    if ls.len() == 0 {
        Some(ParseState { sections: seq![], open: false })
    } else {
        match parse_lines(ls.drop_last()) {
            Some(st) => parse_step(st, ls.last()),
            None => None,
        }
    }
}

/// The well-formedness of a parser state: an open state has a section.
pub open spec fn state_wf(st: ParseState) -> bool {
    st.open ==> st.sections.len() > 0
}

/// The sections of a sequence of lines, or `None` where a key line is due
/// and a line of another shape stands.
pub open spec fn sections_of(ls: Seq<Seq<char>>) -> Option<Seq<SectionModel>> {
    match parse_lines(ls) {
        Some(st) => Some(st.sections),
        None => None,
    }
}

proof fn lemma_parse_wf(ls: Seq<Seq<char>>)
    ensures
        parse_lines(ls) matches Some(st) ==> state_wf(st),
    decreases ls.len(),
{
    if ls.len() > 0 {
        lemma_parse_wf(ls.drop_last());
    }
}

/// Once the parser has failed on a prefix, it fails on the whole.
proof fn lemma_parse_fails_on(ls: Seq<Seq<char>>, i: int)
    requires
        0 <= i <= ls.len(),
        parse_lines(ls.subrange(0, i)) is None,
    ensures
        parse_lines(ls) is None,
    decreases ls.len() - i,
{
    if i < ls.len() {
        assert(ls.subrange(0, i + 1).drop_last() =~= ls.subrange(0, i));
        lemma_parse_fails_on(ls, i + 1);
    } else {
        assert(ls.subrange(0, i) =~= ls);
    }
}

/// Whether `a` and `b` hold the same characters.
pub fn chars_eq(a: &Vec<char>, b: &Vec<char>) -> (r: bool)
    ensures
        r == (a@ == b@),
{
    if a.len() != b.len() {
        return false;
    }
    let mut i: usize = 0;
    while i < a.len()
        invariant
            a@.len() == b@.len(),
            0 <= i <= a@.len(),
            forall|j: int| 0 <= j < i ==> a@[j] == b@[j],
        decreases a@.len() - i,
    {
        if a[i] != b[i] {
            return false;
        }
        i = i + 1;
    }
    assert(a@ =~= b@);
    true
}

/// A copy of `v`.
pub fn copy_chars(v: &Vec<char>) -> (r: Vec<char>)
    ensures
        r@ == v@,
{
    let mut r: Vec<char> = Vec::new();
    let mut i: usize = 0;
    while i < v.len()
        invariant
            0 <= i <= v@.len(),
            r@ == v@.subrange(0, i as int),
        decreases v@.len() - i,
    {
        r.push(v[i]);
        i = i + 1;
        assert(r@ =~= v@.subrange(0, i as int));
    }
    assert(v@.subrange(0, v@.len() as int) =~= v@);
    r
}

/// Appends the characters of `s` to `v`.
pub fn append_chars(v: &mut Vec<char>, s: &Vec<char>)
    ensures
        final(v)@ == old(v)@ + s@,
{
    let mut i: usize = 0;
    let ghost start = v@;
    while i < s.len()
        invariant
            0 <= i <= s@.len(),
            v@ == start + s@.subrange(0, i as int),
        decreases s@.len() - i,
    {
        v.push(s[i]);
        i = i + 1;
        assert(v@ =~= start + s@.subrange(0, i as int));
    }
    assert(s@.subrange(0, s@.len() as int) =~= s@);
}

/// The key of the key line `l`.
fn key_chars(l: &Vec<char>) -> (r: Vec<char>)
    requires
        is_key_line(l@),
    ensures
        r@ == key_of(l@),
{
    let mut r: Vec<char> = Vec::new();
    let mut i: usize = 1;
    let end = l.len() - 1;
    while i < end
        invariant
            1 <= i <= end,
            end == l@.len() - 1,
            r@ == l@.subrange(1, i as int),
        decreases end - i,
    {
        r.push(l[i]);
        i = i + 1;
        assert(r@ =~= l@.subrange(1, i as int));
    }
    r
}

/// Groups lines into sections. Fails with `ExpectedKey` where a key line is
/// due and a line of another shape stands.
pub fn parse_sections(lines: &Vec<Vec<char>>) -> (r: Result<Vec<Section>, Error>)
    ensures
        match sections_of(lines_view(lines@)) {
            Some(ss) => r matches Ok(v) && sections_view(v@) == ss,
            None => r matches Err(e) && e.spec_kind() == KindModel::ExpectedKey,
        },
{
    let mut out: Vec<Section> = Vec::new();
    let mut open = false;
    let mut i: usize = 0;
    assert(lines_view(lines@).subrange(0, 0) =~= Seq::<Seq<char>>::empty());
    assert(sections_view(out@) =~= Seq::<SectionModel>::empty());
    while i < lines.len()
        invariant
            0 <= i <= lines@.len(),
            parse_lines(lines_view(lines@).subrange(0, i as int)) == Some(
                ParseState { sections: sections_view(out@), open },
            ),
            open ==> out@.len() > 0,
        decreases lines@.len() - i,
    {
        let ghost prev = lines_view(lines@).subrange(0, i as int);
        let ghost next = lines_view(lines@).subrange(0, i + 1);
        assert(next.drop_last() =~= prev);
        assert(next.last() == lines@[i as int]@);
        let ghost old_out = out@;
        let l = &lines[i];
        if l.len() == 0 {
            open = false;
        } else if open {
            let last = out.len() - 1;
            let mut sec = out.remove(last);
            sec.values.push(copy_chars(l));
            out.push(sec);
            assert(lines_view(sec.values@) =~= old_out[last as int]@.values.push(l@));
            assert(sections_view(out@) =~= sections_view(old_out).update(
                last as int,
                SectionModel { key: old_out[last as int]@.key, values: old_out[last as int]@.values.push(l@) },
            ));
        } else if l.len() >= 3 && l[0] == '%' && l[l.len() - 1] == '%' {
            let key = key_chars(l);
            let sec = Section { key, values: Vec::new() };
            assert(lines_view(sec.values@) =~= Seq::<Seq<char>>::empty());
            out.push(sec);
            assert(sections_view(out@) =~= sections_view(old_out).push(sec@));
            open = true;
        } else {
            proof {
                lemma_parse_fails_on(lines_view(lines@), i + 1);
            }
            return Err(Error::new(ErrorKind::ExpectedKey));
        }
        i = i + 1;
    }
    assert(lines_view(lines@).subrange(0, lines@.len() as int) =~= lines_view(lines@));
    Ok(out)
}

/// Whether every character of `s` is a decimal digit.
pub open spec fn all_digits(s: Seq<char>) -> bool {
    forall|i: int| 0 <= i < s.len() ==> '0' <= #[trigger] s[i] <= '9'
}

pub open spec fn digit_value(c: char) -> nat {
    (c as u32 - '0' as u32) as nat
}

/// The number that a string of decimal digits writes.
pub open spec fn digits_value(s: Seq<char>) -> nat
    decreases s.len(),
{
    if s.len() == 0 {
        0
    } else {
        digits_value(s.drop_last()) * 10 + digit_value(s.last())
    }
}

/// A prefix of a digit string writes no more than the whole.
proof fn lemma_digits_prefix_le(s: Seq<char>, i: int)
    requires
        0 <= i <= s.len(),
        all_digits(s),
    ensures
        digits_value(s.subrange(0, i)) <= digits_value(s),
    decreases s.len() - i,
{
    if i < s.len() {
        lemma_digits_prefix_le(s, i + 1);
        assert(s.subrange(0, i + 1).drop_last() =~= s.subrange(0, i));
    } else {
        assert(s.subrange(0, i) =~= s);
    }
}

/// The number written in decimal by `t` from position `start` on, where that
/// part is non-empty, all digits, and fits in a `u64`.
pub open spec fn digits_from(t: Seq<char>, start: int) -> Option<nat> {
    let d = t.subrange(start, t.len() as int);
    if start < t.len() && all_digits(d) && digits_value(d) <= u64::MAX {
        Some(digits_value(d))
    } else {
        None
    }
}

fn parse_digits(t: &Vec<char>, start: usize) -> (r: Option<u64>)
    requires
        start <= t@.len(),
    ensures
        r matches Some(v) ==> digits_from(t@, start as int) == Some(v as nat),
        r is None ==> digits_from(t@, start as int) is None,
{
    if start >= t.len() {
        return None;
    }
    let ghost d = t@.subrange(start as int, t@.len() as int);
    let mut v: u64 = 0;
    let mut i: usize = start;
    while i < t.len()
        invariant
            start <= i <= t@.len(),
            d == t@.subrange(start as int, t@.len() as int),
            all_digits(d.subrange(0, i - start)),
            v as nat == digits_value(d.subrange(0, i - start)),
        decreases t@.len() - i,
    {
        let c = t[i];
        assert(d.subrange(0, i + 1 - start).drop_last() =~= d.subrange(0, i - start));
        assert(d[i - start] == c);
        if c < '0' || c > '9' {
            assert(!all_digits(d)) by {
                assert(!('0' <= d[i - start] <= '9'));
            }
            return None;
        }
        let dv = (c as u32 - '0' as u32) as u64;
        if v > (u64::MAX - dv) / 10 {
            proof {
                assert(v * 10 + dv > u64::MAX) by (nonlinear_arith)
                    requires v > (u64::MAX - dv) / 10, dv <= 9;
                if all_digits(d) {
                    lemma_digits_prefix_le(d, i + 1 - start);
                }
            }
            return None;
        }
        assert(v * 10 + dv <= u64::MAX) by (nonlinear_arith)
            requires v <= (u64::MAX - dv) / 10, dv <= 9;
        v = v * 10 + dv;
        i = i + 1;
        assert(all_digits(d.subrange(0, i - start))) by {
            assert forall|j: int| 0 <= j < i - start implies '0' <= #[trigger] d.subrange(0, i - start)[j] <= '9' by {
                if j < i - 1 - start {
                    assert(d.subrange(0, i - start)[j] == d.subrange(0, i - 1 - start)[j]);
                }
            }
        }
    }
    assert(d.subrange(0, t@.len() - start) =~= d);
    Some(v)
}

pub open spec fn is_hex_digit(c: char) -> bool {
    ('0' <= c <= '9') || ('a' <= c <= 'f') || ('A' <= c <= 'F')
}

pub open spec fn hex_value(c: char) -> nat {
    if '0' <= c <= '9' {
        (c as u32 - '0' as u32) as nat
    } else if 'a' <= c <= 'f' {
        (c as u32 - 'a' as u32 + 10) as nat
    } else {
        (c as u32 - 'A' as u32 + 10) as nat
    }
}

fn hex_digit(c: char) -> (r: Option<u8>)
    ensures
        r matches Some(v) ==> is_hex_digit(c) && v as nat == hex_value(c),
        r is None ==> !is_hex_digit(c),
{
    if '0' <= c && c <= '9' {
        Some((c as u32 - '0' as u32) as u8)
    } else if 'a' <= c && c <= 'f' {
        Some((c as u32 - 'a' as u32 + 10) as u8)
    } else if 'A' <= c && c <= 'F' {
        Some((c as u32 - 'A' as u32 + 10) as u8)
    } else {
        None
    }
}

/// The characters of each string, in order.
pub open spec fn strings_view(v: Seq<String>) -> Seq<Seq<char>> {
    v.map_values(|t: String| t@)
}

/// The target kinds of a single value.
#[derive(Debug)]
pub enum ScalarKind {
    /// `true` or `false`.
    Bool,
    /// A decimal `u64`.
    Unsigned,
    /// A decimal `i64`, with an optional leading `-`.
    Signed,
    /// Exactly one character.
    Char,
    /// Exactly two hex digits.
    Byte,
    /// Any text.
    Str,
    /// One of the given tags, matched exactly; decodes to the tag's index.
    Variant(Vec<String>),
}

pub enum ScalarKindModel {
    Bool,
    Unsigned,
    Signed,
    Char,
    Byte,
    Str,
    Variant(Seq<Seq<char>>),
}

impl View for ScalarKind {
    type V = ScalarKindModel;

    open spec fn view(&self) -> ScalarKindModel {
        match self {
            ScalarKind::Bool => ScalarKindModel::Bool,
            ScalarKind::Unsigned => ScalarKindModel::Unsigned,
            ScalarKind::Signed => ScalarKindModel::Signed,
            ScalarKind::Char => ScalarKindModel::Char,
            ScalarKind::Byte => ScalarKindModel::Byte,
            ScalarKind::Str => ScalarKindModel::Str,
            ScalarKind::Variant(tags) => ScalarKindModel::Variant(strings_view(tags@)),
        }
    }
}

/// A decoded single value.
#[derive(Debug)]
pub enum Scalar {
    Bool(bool),
    Unsigned(u64),
    Signed(i64),
    Char(char),
    Byte(u8),
    Str(String),
    /// The index of the tag that matched.
    Variant(usize),
}

pub enum ScalarModel {
    Bool(bool),
    Unsigned(u64),
    Signed(i64),
    Char(char),
    Byte(u8),
    Str(Seq<char>),
    Variant(nat),
}

impl View for Scalar {
    type V = ScalarModel;

    open spec fn view(&self) -> ScalarModel {
        match self {
            Scalar::Bool(b) => ScalarModel::Bool(*b),
            Scalar::Unsigned(v) => ScalarModel::Unsigned(*v),
            Scalar::Signed(v) => ScalarModel::Signed(*v),
            Scalar::Char(c) => ScalarModel::Char(*c),
            Scalar::Byte(b) => ScalarModel::Byte(*b),
            Scalar::Str(s) => ScalarModel::Str(s@),
            Scalar::Variant(i) => ScalarModel::Variant(*i as nat),
        }
    }
}

/// The index of the first tag equal to `t`, from index `i` on.
pub open spec fn variant_index(tags: Seq<Seq<char>>, t: Seq<char>, i: int) -> Option<nat>
    decreases tags.len() - i,
{
    if i < 0 || i >= tags.len() {
        None
    } else if tags[i] == t {
        Some(i as nat)
    } else {
        variant_index(tags, t, i + 1)
    }
}

/// The message of the error for a token that matches no tag.
pub open spec fn unknown_variant_msg() -> Seq<char> {
    "unknown variant"@
}

/// A token decoded as a single value of kind `k`.
pub open spec fn scalar_of(k: ScalarKindModel, t: Seq<char>) -> Result<ScalarModel, KindModel> {
    match k {
        ScalarKindModel::Bool => if t == "true"@ {
            Ok(ScalarModel::Bool(true))
        } else if t == "false"@ {
            Ok(ScalarModel::Bool(false))
        } else {
            Err(KindModel::ExpectedBool)
        },
        ScalarKindModel::Unsigned => match digits_from(t, 0) {
            Some(v) => Ok(ScalarModel::Unsigned(v as u64)),
            None => Err(KindModel::ExpectedUnsigned),
        },
        ScalarKindModel::Signed => if t.len() > 0 && t[0] == '-' {
            match digits_from(t, 1) {
                Some(v) if v <= 0x8000_0000_0000_0000 => Ok(ScalarModel::Signed((0 - v) as i64)),
                _ => Err(KindModel::ExpectedSigned),
            }
        } else {
            match digits_from(t, 0) {
                Some(v) if v <= i64::MAX => Ok(ScalarModel::Signed(v as i64)),
                _ => Err(KindModel::ExpectedSigned),
            }
        },
        ScalarKindModel::Char => if t.len() == 1 {
            Ok(ScalarModel::Char(t[0]))
        } else {
            Err(KindModel::ExpectedChar)
        },
        ScalarKindModel::Byte => if t.len() == 2 && is_hex_digit(t[0]) && is_hex_digit(t[1]) {
            Ok(ScalarModel::Byte((hex_value(t[0]) * 16 + hex_value(t[1])) as u8))
        } else {
            Err(KindModel::ExpectedByte)
        },
        ScalarKindModel::Str => Ok(ScalarModel::Str(t)),
        ScalarKindModel::Variant(tags) => match variant_index(tags, t, 0) {
            Some(i) => Ok(ScalarModel::Variant(i)),
            None => Err(KindModel::Custom(unknown_variant_msg())),
        },
    }
}

/// The characters of `s`.
///
/// Relies on `str::chars`, collected in order.
#[verifier::external_body]
pub fn chars_of(s: &str) -> (r: Vec<char>)
    ensures
        r@ == s@,
{
    s.chars().collect()
}

/// A string of the characters of `v`.
///
/// Relies on `FromIterator<char>` for `String`, which appends each character in order.
#[verifier::external_body]
pub fn string_of(v: &Vec<char>) -> (r: String)
    ensures
        r@ == v@,
{
    v.iter().collect()
}

pub fn is_literal(t: &Vec<char>, lit: &str) -> (r: bool)
    ensures
        r == (t@ == lit@),
{
    let l = chars_of(lit);
    chars_eq(t, &l)
}

/// Decodes the token `t` as a single value of kind `k`.
pub fn decode_scalar(k: &ScalarKind, t: &Vec<char>) -> (r: Result<Scalar, Error>)
    ensures
        match scalar_of(k@, t@) {
            Ok(v) => r matches Ok(x) && x@ == v,
            Err(e) => r matches Err(x) && x.spec_kind() == e,
        },
{
    match k {
        ScalarKind::Bool => {
            if is_literal(t, "true") {
                Ok(Scalar::Bool(true))
            } else if is_literal(t, "false") {
                Ok(Scalar::Bool(false))
            } else {
                Err(Error::new(ErrorKind::ExpectedBool))
            }
        },
        ScalarKind::Unsigned => match parse_digits(t, 0) {
            Some(v) => Ok(Scalar::Unsigned(v)),
            None => Err(Error::new(ErrorKind::ExpectedUnsigned)),
        },
        ScalarKind::Signed => {
            if t.len() > 0 && t[0] == '-' {
                match parse_digits(t, 1) {
                    Some(v) => {
                        if v == 0x8000_0000_0000_0000u64 {
                            Ok(Scalar::Signed(i64::MIN))
                        } else if v < 0x8000_0000_0000_0000u64 {
                            Ok(Scalar::Signed(-(v as i64)))
                        } else {
                            Err(Error::new(ErrorKind::ExpectedSigned))
                        }
                    },
                    None => Err(Error::new(ErrorKind::ExpectedSigned)),
                }
            } else {
                match parse_digits(t, 0) {
                    Some(v) => {
                        if v <= i64::MAX as u64 {
                            Ok(Scalar::Signed(v as i64))
                        } else {
                            Err(Error::new(ErrorKind::ExpectedSigned))
                        }
                    },
                    None => Err(Error::new(ErrorKind::ExpectedSigned)),
                }
            }
        },
        ScalarKind::Char => {
            if t.len() == 1 {
                Ok(Scalar::Char(t[0]))
            } else {
                Err(Error::new(ErrorKind::ExpectedChar))
            }
        },
        ScalarKind::Byte => {
            if t.len() != 2 {
                return Err(Error::new(ErrorKind::ExpectedByte));
            }
            match (hex_digit(t[0]), hex_digit(t[1])) {
                (Some(hi), Some(lo)) => Ok(Scalar::Byte(hi * 16 + lo)),
                _ => Err(Error::new(ErrorKind::ExpectedByte)),
            }
        },
        ScalarKind::Str => Ok(Scalar::Str(string_of(t))),
        ScalarKind::Variant(tags) => {
            let mut i: usize = 0;
            while i < tags.len()
                invariant
                    0 <= i <= tags@.len(),
                    k@ == ScalarKindModel::Variant(strings_view(tags@)),
                    variant_index(strings_view(tags@), t@, i as int)
                        == variant_index(strings_view(tags@), t@, 0),
                decreases tags@.len() - i,
            {
                let tag = chars_of(tags[i].as_str());
                assert(strings_view(tags@)[i as int] == tags@[i as int]@);
                if chars_eq(&tag, t) {
                    assert(tag@ == tags@[i as int]@);
                    assert(variant_index(strings_view(tags@), t@, i as int) == Some(i as nat));
                    return Ok(Scalar::Variant(i));
                }
                i = i + 1;
            }
            Err(Error::new(ErrorKind::Custom("unknown variant".to_owned())))
        },
    }
}

/// The shape a schema field expects.
#[derive(Debug)]
pub enum Shape {
    /// A key with no value lines.
    Unit,
    /// A required single value.
    One(ScalarKind),
    /// A single value; `Absent` where the key is missing.
    Optional(ScalarKind),
    /// A required list, one element per value line.
    List(ScalarKind),
    /// A list, empty where the key is missing.
    ListOrEmpty(ScalarKind),
    /// A nested record, which this format cannot hold.
    Nested,
}

pub enum ShapeModel {
    Unit,
    One(ScalarKindModel),
    Optional(ScalarKindModel),
    List(ScalarKindModel),
    ListOrEmpty(ScalarKindModel),
    Nested,
}

impl View for Shape {
    type V = ShapeModel;

    open spec fn view(&self) -> ShapeModel {
        match self {
            Shape::Unit => ShapeModel::Unit,
            Shape::One(k) => ShapeModel::One(k@),
            Shape::Optional(k) => ShapeModel::Optional(k@),
            Shape::List(k) => ShapeModel::List(k@),
            Shape::ListOrEmpty(k) => ShapeModel::ListOrEmpty(k@),
            Shape::Nested => ShapeModel::Nested,
        }
    }
}

/// A field of a schema: the key of its section and the shape of its value.
#[derive(Debug)]
pub struct Field {
    pub key: String,
    pub shape: Shape,
}

pub struct FieldModel {
    pub key: Seq<char>,
    pub shape: ShapeModel,
}

impl View for Field {
    type V = FieldModel;

    open spec fn view(&self) -> FieldModel {
        FieldModel { key: self.key@, shape: self.shape@ }
    }
}

pub open spec fn fields_view(v: Seq<Field>) -> Seq<FieldModel> {
    v.map_values(|f: Field| f@)
}

/// A decoded field value.
#[derive(Debug)]
pub enum Value {
    Unit,
    /// An optional field whose key is missing.
    Absent,
    One(Scalar),
    List(Vec<Scalar>),
}

pub enum ValueModel {
    Unit,
    Absent,
    One(ScalarModel),
    List(Seq<ScalarModel>),
}

pub open spec fn scalars_view(v: Seq<Scalar>) -> Seq<ScalarModel> {
    v.map_values(|x: Scalar| x@)
}

impl View for Value {
    type V = ValueModel;

    open spec fn view(&self) -> ValueModel {
        match self {
            Value::Unit => ValueModel::Unit,
            Value::Absent => ValueModel::Absent,
            Value::One(x) => ValueModel::One(x@),
            Value::List(v) => ValueModel::List(scalars_view(v@)),
        }
    }
}

pub open spec fn values_view(v: Seq<Value>) -> Seq<ValueModel> {
    v.map_values(|x: Value| x@)
}

pub open spec fn several_values_msg() -> Seq<char> {
    "several values for a single value"@
}

pub open spec fn missing_field_msg() -> Seq<char> {
    "missing field"@
}

pub open spec fn nested_msg() -> Seq<char> {
    "nested record"@
}

/// The first section with key `key`, from index `i` on.
pub open spec fn find_section(ss: Seq<SectionModel>, key: Seq<char>, i: int) -> Option<SectionModel>
    decreases ss.len() - i,
{
    if i < 0 || i >= ss.len() {
        None
    } else if ss[i].key == key {
        Some(ss[i])
    } else {
        find_section(ss, key, i + 1)
    }
}

/// The token of a section read as a single value: its one value line, or
/// empty where it has none.
pub open spec fn token_of(vals: Seq<Seq<char>>) -> Result<Seq<char>, KindModel> {
    if vals.len() == 0 {
        Ok(seq![])
    } else if vals.len() == 1 {
        Ok(vals[0])
    } else {
        Err(KindModel::Unsupported(several_values_msg()))
    }
}

/// Value lines decoded one by one; the first failure wins.
pub open spec fn list_of(k: ScalarKindModel, vals: Seq<Seq<char>>) -> Result<Seq<ScalarModel>, KindModel>
    decreases vals.len(),
{
    if vals.len() == 0 {
        Ok(seq![])
    } else {
        match list_of(k, vals.drop_last()) {
            Err(e) => Err(e),
            Ok(xs) => match scalar_of(k, vals.last()) {
                Err(e) => Err(e),
                Ok(x) => Ok(xs.push(x)),
            },
        }
    }
}

/// A field decoded from the sections of a record.
pub open spec fn field_of(f: FieldModel, ss: Seq<SectionModel>) -> Result<ValueModel, KindModel> {
    match find_section(ss, f.key, 0) {
        None => match f.shape {
            ShapeModel::Optional(_) => Ok(ValueModel::Absent),
            ShapeModel::ListOrEmpty(_) => Ok(ValueModel::List(seq![])),
            ShapeModel::Nested => Err(KindModel::Unsupported(nested_msg())),
            _ => Err(KindModel::Custom(missing_field_msg())),
        },
        Some(sec) => match f.shape {
            ShapeModel::Unit => if sec.values.len() == 0 {
                Ok(ValueModel::Unit)
            } else {
                Err(KindModel::ExpectedEmpty)
            },
            ShapeModel::One(k) => single_of(k, sec.values),
            ShapeModel::Optional(k) => single_of(k, sec.values),
            ShapeModel::List(k) => match list_of(k, sec.values) {
                Ok(xs) => Ok(ValueModel::List(xs)),
                Err(e) => Err(e),
            },
            ShapeModel::ListOrEmpty(k) => match list_of(k, sec.values) {
                Ok(xs) => Ok(ValueModel::List(xs)),
                Err(e) => Err(e),
            },
            ShapeModel::Nested => Err(KindModel::Unsupported(nested_msg())),
        },
    }
}

pub open spec fn single_of(k: ScalarKindModel, vals: Seq<Seq<char>>) -> Result<ValueModel, KindModel> {
    match token_of(vals) {
        Err(e) => Err(e),
        Ok(t) => match scalar_of(k, t) {
            Ok(x) => Ok(ValueModel::One(x)),
            Err(e) => Err(e),
        },
    }
}

/// The fields of a schema decoded in order; the first failure wins.
pub open spec fn record_of(fs: Seq<FieldModel>, ss: Seq<SectionModel>) -> Result<Seq<ValueModel>, KindModel>
    decreases fs.len(),
{
    if fs.len() == 0 {
        Ok(seq![])
    } else {
        match record_of(fs.drop_last(), ss) {
            Err(e) => Err(e),
            Ok(vs) => match field_of(fs.last(), ss) {
                Err(e) => Err(e),
                Ok(v) => Ok(vs.push(v)),
            },
        }
    }
}

/// A descriptor text decoded against a schema.
pub open spec fn decode_spec(text: Seq<char>, fs: Seq<FieldModel>) -> Result<Seq<ValueModel>, KindModel> {
    match sections_of(lines_of(text)) {
        None => Err(KindModel::ExpectedKey),
        Some(ss) => record_of(fs, ss),
    }
}

proof fn lemma_list_fails_on(k: ScalarKindModel, vals: Seq<Seq<char>>, i: int, e: KindModel)
    requires
        0 <= i <= vals.len(),
        list_of(k, vals.subrange(0, i)) == Err::<Seq<ScalarModel>, KindModel>(e),
    ensures
        list_of(k, vals) == Err::<Seq<ScalarModel>, KindModel>(e),
    decreases vals.len() - i,
{
    if i < vals.len() {
        assert(vals.subrange(0, i + 1).drop_last() =~= vals.subrange(0, i));
        lemma_list_fails_on(k, vals, i + 1, e);
    } else {
        assert(vals.subrange(0, i) =~= vals);
    }
}

proof fn lemma_record_fails_on(fs: Seq<FieldModel>, ss: Seq<SectionModel>, i: int, e: KindModel)
    requires
        0 <= i <= fs.len(),
        record_of(fs.subrange(0, i), ss) == Err::<Seq<ValueModel>, KindModel>(e),
    ensures
        record_of(fs, ss) == Err::<Seq<ValueModel>, KindModel>(e),
    decreases fs.len() - i,
{
    if i < fs.len() {
        assert(fs.subrange(0, i + 1).drop_last() =~= fs.subrange(0, i));
        lemma_record_fails_on(fs, ss, i + 1, e);
    } else {
        assert(fs.subrange(0, i) =~= fs);
    }
}

/// The index of the first section with key `key`.
fn find_section_index(ss: &Vec<Section>, key: &Vec<char>) -> (r: Option<usize>)
    ensures
        match find_section(sections_view(ss@), key@, 0) {
            None => r is None,
            Some(s) => r matches Some(j) && j < ss@.len() && ss@[j as int]@ == s,
        },
{
    let mut i: usize = 0;
    while i < ss.len()
        invariant
            0 <= i <= ss@.len(),
            find_section(sections_view(ss@), key@, i as int) == find_section(sections_view(ss@), key@, 0),
        decreases ss@.len() - i,
    {
        assert(sections_view(ss@)[i as int] == ss@[i as int]@);
        if chars_eq(&ss[i].key, key) {
            return Some(i);
        }
        i = i + 1;
    }
    None
}

/// Decodes each value line as a single value of kind `k`.
pub fn decode_list(k: &ScalarKind, vals: &Vec<Vec<char>>) -> (r: Result<Vec<Scalar>, Error>)
    ensures
        match list_of(k@, lines_view(vals@)) {
            Ok(xs) => r matches Ok(v) && scalars_view(v@) == xs,
            Err(e) => r matches Err(x) && x.spec_kind() == e,
        },
{
    let mut out: Vec<Scalar> = Vec::new();
    let mut i: usize = 0;
    assert(lines_view(vals@).subrange(0, 0) =~= Seq::<Seq<char>>::empty());
    assert(scalars_view(out@) =~= Seq::<ScalarModel>::empty());
    while i < vals.len()
        invariant
            0 <= i <= vals@.len(),
            list_of(k@, lines_view(vals@).subrange(0, i as int)) == Ok::<Seq<ScalarModel>, KindModel>(
                scalars_view(out@),
            ),
        decreases vals@.len() - i,
    {
        let ghost next = lines_view(vals@).subrange(0, i + 1);
        assert(next.drop_last() =~= lines_view(vals@).subrange(0, i as int));
        assert(next.last() == vals@[i as int]@);
        match decode_scalar(k, &vals[i]) {
            Ok(x) => {
                let ghost old_out = out@;
                out.push(x);
                assert(scalars_view(out@) =~= scalars_view(old_out).push(x@));
            },
            Err(e) => {
                proof {
                    lemma_list_fails_on(k@, lines_view(vals@), i + 1, e.spec_kind());
                }
                return Err(e);
            },
        }
        i = i + 1;
    }
    assert(lines_view(vals@).subrange(0, vals@.len() as int) =~= lines_view(vals@));
    Ok(out)
}

fn decode_single(k: &ScalarKind, vals: &Vec<Vec<char>>) -> (r: Result<Value, Error>)
    ensures
        match single_of(k@, lines_view(vals@)) {
            Ok(v) => r matches Ok(x) && x@ == v,
            Err(e) => r matches Err(x) && x.spec_kind() == e,
        },
{
    if vals.len() > 1 {
        return Err(Error::new(ErrorKind::Unsupported("several values for a single value".to_owned())));
    }
    let empty: Vec<char> = Vec::new();
    let t = if vals.len() == 1 {
        &vals[0]
    } else {
        &empty
    };
    assert(token_of(lines_view(vals@)) == Ok::<Seq<char>, KindModel>(t@)) by {
        if vals@.len() == 1 {
            assert(lines_view(vals@)[0] == vals@[0]@);
        }
    }
    match decode_scalar(k, t) {
        Ok(x) => Ok(Value::One(x)),
        Err(e) => Err(e),
    }
}

/// Decodes one field of a schema from the sections of a record.
pub fn decode_field(f: &Field, ss: &Vec<Section>) -> (r: Result<Value, Error>)
    ensures
        match field_of(f@, sections_view(ss@)) {
            Ok(v) => r matches Ok(x) && x@ == v,
            Err(e) => r matches Err(x) && x.spec_kind() == e,
        },
{
    let key = chars_of(f.key.as_str());
    match find_section_index(ss, &key) {
        None => match &f.shape {
            Shape::Optional(_) => Ok(Value::Absent),
            Shape::ListOrEmpty(_) => {
                let v: Vec<Scalar> = Vec::new();
                assert(scalars_view(v@) =~= Seq::<ScalarModel>::empty());
                Ok(Value::List(v))
            },
            Shape::Nested => Err(Error::new(ErrorKind::Unsupported("nested record".to_owned()))),
            _ => Err(Error::custom("missing field".to_owned()).with_cause(f.key.clone())),
        },
        Some(j) => {
            let sec = &ss[j];
            match &f.shape {
                Shape::Unit => {
                    if sec.values.len() == 0 {
                        Ok(Value::Unit)
                    } else {
                        Err(Error::new(ErrorKind::ExpectedEmpty))
                    }
                },
                Shape::One(k) => decode_single(k, &sec.values),
                Shape::Optional(k) => decode_single(k, &sec.values),
                Shape::List(k) => match decode_list(k, &sec.values) {
                    Ok(v) => Ok(Value::List(v)),
                    Err(e) => Err(e),
                },
                Shape::ListOrEmpty(k) => match decode_list(k, &sec.values) {
                    Ok(v) => Ok(Value::List(v)),
                    Err(e) => Err(e),
                },
                Shape::Nested => Err(Error::new(ErrorKind::Unsupported("nested record".to_owned()))),
            }
        },
    }
}

/// Decodes every field of a schema, in order, from the sections of a record.
/// Sections that no field names are skipped.
pub fn decode_record(fs: &Vec<Field>, ss: &Vec<Section>) -> (r: Result<Vec<Value>, Error>)
    ensures
        match record_of(fields_view(fs@), sections_view(ss@)) {
            Ok(vs) => r matches Ok(v) && values_view(v@) == vs,
            Err(e) => r matches Err(x) && x.spec_kind() == e,
        },
{
    let mut out: Vec<Value> = Vec::new();
    let mut i: usize = 0;
    assert(fields_view(fs@).subrange(0, 0) =~= Seq::<FieldModel>::empty());
    assert(values_view(out@) =~= Seq::<ValueModel>::empty());
    while i < fs.len()
        invariant
            0 <= i <= fs@.len(),
            record_of(fields_view(fs@).subrange(0, i as int), sections_view(ss@)) == Ok::<Seq<ValueModel>, KindModel>(
                values_view(out@),
            ),
        decreases fs@.len() - i,
    {
        let ghost next = fields_view(fs@).subrange(0, i + 1);
        assert(next.drop_last() =~= fields_view(fs@).subrange(0, i as int));
        assert(next.last() == fs@[i as int]@);
        match decode_field(&fs[i], ss) {
            Ok(x) => {
                let ghost old_out = out@;
                out.push(x);
                assert(values_view(out@) =~= values_view(old_out).push(x@));
            },
            Err(e) => {
                proof {
                    lemma_record_fails_on(fields_view(fs@), sections_view(ss@), i + 1, e.spec_kind());
                }
                return Err(e);
            },
        }
        i = i + 1;
    }
    assert(fields_view(fs@).subrange(0, fs@.len() as int) =~= fields_view(fs@));
    Ok(out)
}

/// Decodes a descriptor text against a schema: one value per field, in the
/// schema's order.
pub fn from_str(text: &str, fs: &Vec<Field>) -> (r: Result<Vec<Value>, Error>)
    ensures
        match decode_spec(text@, fields_view(fs@)) {
            Ok(vs) => r matches Ok(v) && values_view(v@) == vs,
            Err(e) => r matches Err(x) && x.spec_kind() == e,
        },
{
    let ss = parse_text(text)?;
    decode_record(fs, &ss)
}

/// Splits a descriptor text into its sections.
pub fn parse_text(text: &str) -> (r: Result<Vec<Section>, Error>)
    ensures
        match sections_of(lines_of(text@)) {
            Some(ss) => r matches Ok(v) && sections_view(v@) == ss,
            None => r matches Err(e) && e.spec_kind() == KindModel::ExpectedKey,
        },
{
    let chars = chars_of(text);
    let lines = split_lines(&chars);
    parse_sections(&lines)
}

proof fn lemma_find_absent(ss: Seq<SectionModel>, key: Seq<char>, i: int)
    requires
        forall|j: int| 0 <= j < ss.len() ==> (#[trigger] ss[j]).key != key,
    ensures
        find_section(ss, key, i) is None,
    decreases ss.len() - i,
{
    if 0 <= i < ss.len() {
        lemma_find_absent(ss, key, i + 1);
    }
}

/// A field whose key names no section decodes to its default: `Absent` for
/// an optional value, the empty list for a list that may be missing.
pub proof fn lemma_missing_key_default(f: FieldModel, ss: Seq<SectionModel>)
    requires
        forall|j: int| 0 <= j < ss.len() ==> (#[trigger] ss[j]).key != f.key,
    ensures
        f.shape is Optional ==> field_of(f, ss) == Ok::<ValueModel, KindModel>(ValueModel::Absent),
        f.shape is ListOrEmpty ==> field_of(f, ss) == Ok::<ValueModel, KindModel>(
            ValueModel::List(seq![]),
        ),
{
    lemma_find_absent(ss, f.key, 0);
}

proof fn lemma_find_insert(ss: Seq<SectionModel>, x: SectionModel, p: int, key: Seq<char>, i: int)
    requires
        0 <= p <= ss.len(),
        0 <= i <= ss.len(),
        x.key != key,
    ensures
        i <= p ==> find_section(ss.insert(p, x), key, i) == find_section(ss, key, i),
        i >= p ==> find_section(ss.insert(p, x), key, i + 1) == find_section(ss, key, i),
    decreases ss.len() - i,
{
    let t = ss.insert(p, x);
    if i < ss.len() {
        lemma_find_insert(ss, x, p, key, i + 1);
    }
    if i < p {
        assert(t[i] == ss[i]);
    } else if i == p {
        assert(t[i] == x);
        if i < ss.len() {
            assert(t[i + 1] == ss[i]);
        }
    } else if i < ss.len() {
        assert(t[i + 1] == ss[i]);
    }
}

/// Inserting a section whose key no field of the schema names, anywhere
/// among the sections, leaves the decoded record unchanged.
pub proof fn lemma_unknown_section_ignored(
    fs: Seq<FieldModel>,
    ss: Seq<SectionModel>,
    x: SectionModel,
    p: int,
)
    requires
        0 <= p <= ss.len(),
        forall|j: int| 0 <= j < fs.len() ==> (#[trigger] fs[j]).key != x.key,
    ensures
        record_of(fs, ss.insert(p, x)) == record_of(fs, ss),
    decreases fs.len(),
{
    if fs.len() > 0 {
        let pre = fs.drop_last();
        assert forall|j: int| 0 <= j < pre.len() implies (#[trigger] pre[j]).key != x.key by {
            assert(pre[j] == fs[j]);
        }
        lemma_unknown_section_ignored(pre, ss, x, p);
        assert(fs.last() == fs[fs.len() - 1]);
        lemma_find_insert(ss, x, p, fs.last().key, 0);
    }
}

/// A byte token that is not exactly two hex digits fails with `ExpectedByte`.
pub proof fn lemma_bad_byte_token(t: Seq<char>)
    requires
        !(t.len() == 2 && is_hex_digit(t[0]) && is_hex_digit(t[1])),
    ensures
        scalar_of(ScalarKindModel::Byte, t) == Err::<ScalarModel, KindModel>(KindModel::ExpectedByte),
{
}

/// A decoded record holds one value per field.
pub proof fn lemma_record_len(fs: Seq<FieldModel>, ss: Seq<SectionModel>)
    ensures
        record_of(fs, ss) matches Ok(vs) ==> vs.len() == fs.len(),
    decreases fs.len(),
{
    if fs.len() > 0 {
        lemma_record_len(fs.drop_last(), ss);
    }
}

} // verus!
