//! Writing sections back as descriptor text, and the proof that parsing the
//! text gives the same sections back.
use vstd::prelude::*;

use crate::desc::{
    append_chars, is_key_line, string_of, key_of, lines_of, parse_lines, parse_step, sections_of,
    sections_view, split_acc, ParseState, Section, SectionModel,
};

verus! {

/// Whether a line holds no newline.
pub open spec fn no_newline(l: Seq<char>) -> bool {
    forall|i: int| 0 <= i < l.len() ==> l[i] != '\n'
}

/// A section that the text format can hold: a non-empty key and non-empty
/// value lines, none with a newline.
pub open spec fn section_wf(s: SectionModel) -> bool {
    &&& s.key.len() > 0
    &&& no_newline(s.key)
    &&& forall|j: int| 0 <= j < s.values.len() ==> (#[trigger] s.values[j]).len() > 0 && no_newline(s.values[j])
}

pub open spec fn key_line(k: Seq<char>) -> Seq<char> {
    seq!['%'] + k + seq!['%']
}

/// Value lines, each followed by a newline.
pub open spec fn values_text(vs: Seq<Seq<char>>) -> Seq<char>
    decreases vs.len(),
{
    if vs.len() == 0 {
        seq![]
    } else {
        values_text(vs.drop_last()) + vs.last() + seq!['\n']
    }
}

/// The text of one section: its key line, its value lines, a blank line.
pub open spec fn section_text(s: SectionModel) -> Seq<char> {
    key_line(s.key) + seq!['\n'] + values_text(s.values) + seq!['\n']
}

/// The text of a sequence of sections.
pub open spec fn encode_text(ss: Seq<SectionModel>) -> Seq<char>
    decreases ss.len(),
{
    if ss.len() == 0 {
        seq![]
    } else {
        encode_text(ss.drop_last()) + section_text(ss.last())
    }
}

/// The lines of one section's text.
pub open spec fn section_lines(s: SectionModel) -> Seq<Seq<char>> {
    seq![key_line(s.key)] + s.values + seq![seq![]]
}

pub open spec fn encode_lines(ss: Seq<SectionModel>) -> Seq<Seq<char>>
    decreases ss.len(),
{
    if ss.len() == 0 {
        seq![]
    } else {
        encode_lines(ss.drop_last()) + section_lines(ss.last())
    }
}

proof fn lemma_split_append(s: Seq<char>, l: Seq<char>)
    requires
        no_newline(l),
    ensures
        split_acc(s + l) == (split_acc(s).0, split_acc(s).1 + l),
    decreases l.len(),
{
    if l.len() == 0 {
        assert(s + l =~= s);
        assert(split_acc(s).1 + l =~= split_acc(s).1);
    } else {
        let p = l.drop_last();
        assert((s + l).drop_last() =~= s + p);
        assert((s + l).last() == l.last());
        assert(no_newline(p));
        lemma_split_append(s, p);
        assert(l[l.len() - 1] != '\n');
        assert((split_acc(s).1 + p).push(l.last()) =~= split_acc(s).1 + l);
    }
}

proof fn lemma_split_line(s: Seq<char>, l: Seq<char>)
    requires
        no_newline(l),
    ensures
        split_acc(s + l + seq!['\n']) == (split_acc(s).0.push(split_acc(s).1 + l), Seq::<char>::empty()),
{
    lemma_split_append(s, l);
    let t = s + l + seq!['\n'];
    assert(t.drop_last() =~= s + l);
    assert(t.last() == '\n');
}

proof fn lemma_split_values(s: Seq<char>, vs: Seq<Seq<char>>)
    requires
        split_acc(s).1.len() == 0,
        forall|j: int| 0 <= j < vs.len() ==> no_newline(#[trigger] vs[j]),
    ensures
        split_acc(s + values_text(vs)) == (split_acc(s).0 + vs, Seq::<char>::empty()),
    decreases vs.len(),
{
    if vs.len() == 0 {
        assert(s + values_text(vs) =~= s);
        assert(split_acc(s).0 + vs =~= split_acc(s).0);
        assert(split_acc(s).1 =~= Seq::<char>::empty());
    } else {
        let p = vs.drop_last();
        assert forall|j: int| 0 <= j < p.len() implies no_newline(#[trigger] p[j]) by {
            assert(p[j] == vs[j]);
        }
        lemma_split_values(s, p);
        assert(no_newline(vs[vs.len() - 1]));
        assert(s + values_text(vs) =~= (s + values_text(p)) + vs.last() + seq!['\n']);
        lemma_split_line(s + values_text(p), vs.last());
        assert(Seq::<char>::empty() + vs.last() =~= vs.last());
        assert((split_acc(s).0 + p).push(vs.last()) =~= split_acc(s).0 + vs);
    }
}

proof fn lemma_split_encode(ss: Seq<SectionModel>)
    requires
        forall|j: int| 0 <= j < ss.len() ==> section_wf(#[trigger] ss[j]),
    ensures
        split_acc(encode_text(ss)) == (encode_lines(ss), Seq::<char>::empty()),
    decreases ss.len(),
{
    if ss.len() > 0 {
        let p = ss.drop_last();
        let x = ss.last();
        assert forall|j: int| 0 <= j < p.len() implies section_wf(#[trigger] p[j]) by {
            assert(p[j] == ss[j]);
        }
        lemma_split_encode(p);
        assert(section_wf(ss[ss.len() - 1]));
        let e = encode_text(p);
        assert(no_newline(key_line(x.key))) by {
            assert forall|i: int| 0 <= i < key_line(x.key).len() implies key_line(x.key)[i] != '\n' by {
                if 0 < i < key_line(x.key).len() - 1 {
                    assert(key_line(x.key)[i] == x.key[i - 1]);
                }
            }
        }
        lemma_split_line(e, key_line(x.key));
        assert(Seq::<char>::empty() + key_line(x.key) =~= key_line(x.key));
        let e1 = e + key_line(x.key) + seq!['\n'];
        assert forall|j: int| 0 <= j < x.values.len() implies no_newline(#[trigger] x.values[j]) by {}
        lemma_split_values(e1, x.values);
        let e2 = e1 + values_text(x.values);
        assert(no_newline(Seq::<char>::empty()));
        lemma_split_line(e2, Seq::<char>::empty());
        assert(e2 + Seq::<char>::empty() + seq!['\n'] =~= encode_text(ss));
        assert(Seq::<char>::empty() + Seq::<char>::empty() =~= Seq::<char>::empty());
        assert((encode_lines(p).push(key_line(x.key)) + x.values).push(Seq::<char>::empty())
            =~= encode_lines(ss));
    }
}

/// The section parser run from state `st` over more lines.
pub open spec fn parse_run(st: Option<ParseState>, ls: Seq<Seq<char>>) -> Option<ParseState>
    decreases ls.len(),
{
    if ls.len() == 0 {
        st
    } else {
        match parse_run(st, ls.drop_last()) {
            Some(x) => parse_step(x, ls.last()),
            None => None,
        }
    }
}

proof fn lemma_run_concat(st: Option<ParseState>, a: Seq<Seq<char>>, b: Seq<Seq<char>>)
    ensures
        parse_run(st, a + b) == parse_run(parse_run(st, a), b),
    decreases b.len(),
{
    if b.len() == 0 {
        assert(a + b =~= a);
    } else {
        assert((a + b).drop_last() =~= a + b.drop_last());
        assert((a + b).last() == b.last());
        lemma_run_concat(st, a, b.drop_last());
    }
}

proof fn lemma_parse_is_run(ls: Seq<Seq<char>>)
    ensures
        parse_lines(ls) == parse_run(Some(ParseState { sections: seq![], open: false }), ls),
    decreases ls.len(),
{
    if ls.len() > 0 {
        lemma_parse_is_run(ls.drop_last());
    }
}

proof fn lemma_run_values(pre: Seq<SectionModel>, k: Seq<char>, vs: Seq<Seq<char>>)
    requires
        forall|j: int| 0 <= j < vs.len() ==> (#[trigger] vs[j]).len() > 0,
    ensures
        parse_run(Some(ParseState { sections: pre.push(SectionModel { key: k, values: seq![] }), open: true }), vs)
            == Some(ParseState { sections: pre.push(SectionModel { key: k, values: vs }), open: true }),
    decreases vs.len(),
{
    if vs.len() == 0 {
        assert(vs =~= Seq::<Seq<char>>::empty());
    } else {
        let p = vs.drop_last();
        assert forall|j: int| 0 <= j < p.len() implies (#[trigger] p[j]).len() > 0 by {
            assert(p[j] == vs[j]);
        }
        lemma_run_values(pre, k, p);
        assert(vs[vs.len() - 1].len() > 0);
        let ss = pre.push(SectionModel { key: k, values: p });
        assert(p.push(vs.last()) =~= vs);
        assert(ss.last() == SectionModel { key: k, values: p });
        assert(ss.update(ss.len() - 1, SectionModel { key: k, values: p.push(vs.last()) })
            =~= pre.push(SectionModel { key: k, values: vs }));
    }
}

proof fn lemma_run_section(pre: Seq<SectionModel>, x: SectionModel)
    requires
        section_wf(x),
    ensures
        parse_run(Some(ParseState { sections: pre, open: false }), section_lines(x))
            == Some(ParseState { sections: pre.push(x), open: false }),
{
    let st0 = Some(ParseState { sections: pre, open: false });
    let kl = key_line(x.key);
    assert(is_key_line(kl));
    assert(key_of(kl) =~= x.key);
    assert(section_lines(x) =~= seq![kl] + x.values + seq![seq![]]);
    lemma_run_concat(st0, seq![kl] + x.values, seq![seq![]]);
    lemma_run_concat(st0, seq![kl], x.values);
    assert(seq![kl].drop_last() =~= Seq::<Seq<char>>::empty());
    assert(parse_run(st0, seq![kl].drop_last()) == st0);
    assert(seq![kl].last() == kl);
    assert(kl.len() > 0);
    assert(parse_run(st0, seq![kl]) == Some(
        ParseState { sections: pre.push(SectionModel { key: x.key, values: seq![] }), open: true },
    ));
    assert forall|j: int| 0 <= j < x.values.len() implies (#[trigger] x.values[j]).len() > 0 by {}
    lemma_run_values(pre, x.key, x.values);
    let st2 = Some(ParseState { sections: pre.push(SectionModel { key: x.key, values: x.values }), open: true });
    assert(seq![Seq::<char>::empty()].drop_last() =~= Seq::<Seq<char>>::empty());
    assert(parse_run(st2, seq![Seq::<char>::empty()].drop_last()) == st2);
    assert(seq![Seq::<char>::empty()].last().len() == 0);
    assert(SectionModel { key: x.key, values: x.values } == x);
    assert(parse_run(st2, seq![seq![]]) == Some(ParseState { sections: pre.push(x), open: false }));
}

proof fn lemma_run_encode(ss: Seq<SectionModel>)
    requires
        forall|j: int| 0 <= j < ss.len() ==> section_wf(#[trigger] ss[j]),
    ensures
        parse_run(Some(ParseState { sections: seq![], open: false }), encode_lines(ss))
            == Some(ParseState { sections: ss, open: false }),
    decreases ss.len(),
{
    if ss.len() == 0 {
        assert(ss =~= Seq::<SectionModel>::empty());
    } else {
        let p = ss.drop_last();
        assert forall|j: int| 0 <= j < p.len() implies section_wf(#[trigger] p[j]) by {
            assert(p[j] == ss[j]);
        }
        lemma_run_encode(p);
        lemma_run_concat(Some(ParseState { sections: seq![], open: false }), encode_lines(p), section_lines(ss.last()));
        assert(section_wf(ss[ss.len() - 1]));
        lemma_run_section(p, ss.last());
        assert(p.push(ss.last()) =~= ss);
    }
}

/// Parsing the text of well-formed sections gives the same sections back.
pub proof fn lemma_encode_round_trip(ss: Seq<SectionModel>)
    requires
        forall|j: int| 0 <= j < ss.len() ==> section_wf(#[trigger] ss[j]),
    ensures
        sections_of(lines_of(encode_text(ss))) == Some(ss),
{
    lemma_split_encode(ss);
    assert(lines_of(encode_text(ss)) == encode_lines(ss));
    lemma_parse_is_run(encode_lines(ss));
    lemma_run_encode(ss);
}

/// Writes sections as descriptor text: for each, its key line `%KEY%`, its
/// value lines, and a blank line.
pub fn encode_sections(ss: &Vec<Section>) -> (r: Vec<char>)
    ensures
        r@ == encode_text(sections_view(ss@)),
{
    let mut out: Vec<char> = Vec::new();
    let mut i: usize = 0;
    assert(sections_view(ss@).subrange(0, 0) =~= Seq::<SectionModel>::empty());
    while i < ss.len()
        invariant
            0 <= i <= ss@.len(),
            out@ == encode_text(sections_view(ss@).subrange(0, i as int)),
        decreases ss@.len() - i,
    {
        let ghost start = out@;
        let sec = &ss[i];
        out.push('%');
        append_chars(&mut out, &sec.key);
        out.push('%');
        out.push('\n');
        assert(out@ =~= start + key_line(sec.key@) + seq!['\n']);
        let ghost head = out@;
        let mut j: usize = 0;
        assert(values_text(sec@.values.subrange(0, 0)) =~= Seq::<char>::empty());
        assert(head + Seq::<char>::empty() =~= head);
        while j < sec.values.len()
            invariant
                0 <= j <= sec.values@.len(),
                sec == &ss@[i as int],
                out@ == head + values_text(sec@.values.subrange(0, j as int)),
            decreases sec.values@.len() - j,
        {
            let ghost before = out@;
            append_chars(&mut out, &sec.values[j]);
            out.push('\n');
            assert(sec@.values.subrange(0, j + 1).drop_last() =~= sec@.values.subrange(0, j as int));
            assert(sec@.values[j as int] == sec.values@[j as int]@);
            assert(out@ =~= head + values_text(sec@.values.subrange(0, j + 1)));
            j = j + 1;
        }
        assert(sec@.values.subrange(0, sec.values@.len() as int) =~= sec@.values);
        out.push('\n');
        assert(sections_view(ss@).subrange(0, i + 1).drop_last() =~= sections_view(ss@).subrange(0, i as int));
        assert(sections_view(ss@)[i as int] == sec@);
        assert(out@ =~= start + section_text(sec@));
        i = i + 1;
    }
    assert(sections_view(ss@).subrange(0, ss@.len() as int) =~= sections_view(ss@));
    out
}


proof fn lemma_split_no_newline(s: Seq<char>)
    ensures
        forall|j: int| 0 <= j < split_acc(s).0.len() ==> no_newline(#[trigger] split_acc(s).0[j]),
        no_newline(split_acc(s).1),
    decreases s.len(),
{
    if s.len() > 0 {
        lemma_split_no_newline(s.drop_last());
        let (done, cur) = split_acc(s.drop_last());
        if s.last() == '\n' {
            assert forall|j: int| 0 <= j < done.push(cur).len() implies no_newline(#[trigger] done.push(cur)[j]) by {
                if j < done.len() {
                    assert(done.push(cur)[j] == done[j]);
                }
            }
        } else {
            assert forall|i: int| 0 <= i < cur.push(s.last()).len() implies cur.push(s.last())[i] != '\n' by {
                if i < cur.len() {
                    assert(cur.push(s.last())[i] == cur[i]);
                }
            }
        }
    }
}

proof fn lemma_lines_no_newline(s: Seq<char>)
    ensures
        forall|j: int| 0 <= j < lines_of(s).len() ==> no_newline(#[trigger] lines_of(s)[j]),
{
    lemma_split_no_newline(s);
    let (done, cur) = split_acc(s);
    if cur.len() > 0 {
        assert forall|j: int| 0 <= j < done.push(cur).len() implies no_newline(#[trigger] done.push(cur)[j]) by {
            if j < done.len() {
                assert(done.push(cur)[j] == done[j]);
            }
        }
    }
}

proof fn lemma_parsed_wf(ls: Seq<Seq<char>>)
    requires
        forall|j: int| 0 <= j < ls.len() ==> no_newline(#[trigger] ls[j]),
    ensures
        parse_lines(ls) matches Some(st) ==> (st.open ==> st.sections.len() > 0) && forall|j: int|
            0 <= j < st.sections.len() ==> section_wf(#[trigger] st.sections[j]),
    decreases ls.len(),
{
    if ls.len() > 0 {
        let p = ls.drop_last();
        assert forall|j: int| 0 <= j < p.len() implies no_newline(#[trigger] p[j]) by {
            assert(p[j] == ls[j]);
        }
        lemma_parsed_wf(p);
        let l = ls.last();
        assert(no_newline(ls[ls.len() - 1]));
        match parse_lines(p) {
            Some(st) => {
                if l.len() == 0 {
                } else if st.open {
                    let last = st.sections.last();
                    let nl = SectionModel { key: last.key, values: last.values.push(l) };
                    assert(section_wf(st.sections[st.sections.len() - 1]));
                    assert forall|j: int| 0 <= j < nl.values.len() implies (#[trigger] nl.values[j]).len() > 0
                        && no_newline(nl.values[j]) by {
                        if j < last.values.len() {
                            assert(nl.values[j] == last.values[j]);
                        }
                    }
                    let u = st.sections.update(st.sections.len() - 1, nl);
                    assert forall|j: int| 0 <= j < u.len() implies section_wf(#[trigger] u[j]) by {
                        if j < st.sections.len() - 1 {
                            assert(u[j] == st.sections[j]);
                        }
                    }
                } else if is_key_line(l) {
                    let k = key_of(l);
                    assert(no_newline(k)) by {
                        assert forall|i: int| 0 <= i < k.len() implies k[i] != '\n' by {
                            assert(k[i] == l[i + 1]);
                        }
                    }
                    let x = SectionModel { key: k, values: seq![] };
                    assert(section_wf(x));
                    let u = st.sections.push(x);
                    assert forall|j: int| 0 <= j < u.len() implies section_wf(#[trigger] u[j]) by {
                        if j < st.sections.len() {
                            assert(u[j] == st.sections[j]);
                        }
                    }
                }
            },
            None => {},
        }
    }
}

/// The sections decoded from any text, written back as text, decode to the
/// same sections.
pub proof fn lemma_decode_encode_round_trip(text: Seq<char>)
    ensures
        sections_of(lines_of(text)) matches Some(ss) ==> sections_of(lines_of(encode_text(ss))) == Some(ss),
{
    lemma_lines_no_newline(text);
    lemma_parsed_wf(lines_of(text));
    if let Some(ss) = sections_of(lines_of(text)) {
        lemma_encode_round_trip(ss);
    }
}


/// Writes sections as descriptor text, as `encode_sections` does.
pub fn encode_to_string(ss: &Vec<Section>) -> (r: String)
    ensures
        r@ == encode_text(sections_view(ss@)),
{
    let v = encode_sections(ss);
    string_of(&v)
}

} // verus!
