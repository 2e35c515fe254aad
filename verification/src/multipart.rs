//! A `multipart/form-data` body parser.
//!
//! The body is split at every `\r\n--<boundary>` delimiter after the
//! leading `--<boundary>`.  A segment starting with `--` closes the
//! stream; a segment starting with `\r\n` is a part whose header section
//! runs to the first blank line and whose content runs to the next
//! delimiter.  Header lines are split at the first colon; attribute
//! values of the content-disposition header are read between quotes.
//! Anything else is a malformed body and is rejected as a whole: the
//! decoder never skips input it does not understand.
use crate::bytes::{first_match, lemma_first_match, match_at};
use vstd::prelude::*;

verus! {

/// One decoded part: the field name, the optional upload filename, the
/// optional content type, and the raw content bytes.
pub struct RawPart {
    pub name: Vec<u8>,
    pub filename: Option<Vec<u8>>,
    pub content_type: Option<Vec<u8>>,
    pub data: Vec<u8>,
}

/// The mathematical image of a part.
pub ghost struct PartView {
    pub name: Seq<u8>,
    pub filename: Option<Seq<u8>>,
    pub content_type: Option<Seq<u8>>,
    pub data: Seq<u8>,
}

impl View for RawPart {
    type V = PartView;

    open spec fn view(&self) -> PartView {
        PartView {
            name: self.name@,
            filename: match self.filename {
                Some(f) => Some(f@),
                None => None,
            },
            content_type: match self.content_type {
                Some(c) => Some(c@),
                None => None,
            },
            data: self.data@,
        }
    }
}

/// The views of a run of parts, in order.
pub open spec fn part_views(parts: Seq<RawPart>) -> Seq<PartView> {
    parts.map_values(|p: RawPart| p@)
}

/// The views of a run of byte vectors, in order.
pub open spec fn piece_views(pieces: Seq<Vec<u8>>) -> Seq<Seq<u8>> {
    pieces.map_values(|v: Vec<u8>| v@)
}

/// `s` split at every occurrence of `d`, in order.
pub open spec fn split_by(s: Seq<u8>, d: Seq<u8>) -> Seq<Seq<u8>>
    decreases s.len(),
    when d.len() > 0
    via split_by_decreases
{
    match first_match(s, d, 0) {
        None => seq![s],
        Some(i) => seq![s.subrange(0, i)] + split_by(s.subrange(i + d.len(), s.len() as int), d),
    }
}

#[via_fn]
proof fn split_by_decreases(s: Seq<u8>, d: Seq<u8>) {
    lemma_first_match(s, d, 0);
}

/// Splits `s` at every occurrence of `d`.
pub fn split_bytes(s: &[u8], d: &[u8]) -> (r: Vec<Vec<u8>>)
    requires
        d@.len() > 0,
    ensures
        piece_views(r@) == split_by(s@, d@),
{
    let mut out: Vec<Vec<u8>> = Vec::new();
    let mut pos: usize = 0;
    let slen = s.len();
    proof {
        assert(s@.len() == slen);
        assert(s@.subrange(0, s@.len() as int) =~= s@);
        assert(piece_views(out@) =~= Seq::<Seq<u8>>::empty());
        assert(piece_views(out@) + split_by(s@, d@) =~= split_by(s@, d@));
    }
    loop
        invariant
            pos <= s@.len(),
            s@.len() <= usize::MAX,
            d@.len() > 0,
            split_by(s@, d@) == piece_views(out@) + split_by(
                s@.subrange(pos as int, s@.len() as int),
                d@,
            ),
        decreases s@.len() - pos,
    {
        let ghost rest = s@.subrange(pos as int, s@.len() as int);
        let ghost prev = piece_views(out@);
        match crate::bytes::find_from(s, d, pos) {
            Some(i) => {
                proof {
                    lemma_first_match(s@, d@, pos as int);
                    assert(rest.subrange(i - pos, i - pos + d@.len()) =~= s@.subrange(
                        i as int,
                        i + d@.len(),
                    ));
                    assert(match_at(rest, d@, i - pos));
                    assert forall|j: int| 0 <= j < i - pos implies !match_at(rest, d@, j) by {
                        assert(rest.subrange(j, j + d@.len()) =~= s@.subrange(
                            pos + j,
                            pos + j + d@.len(),
                        ));
                        assert(!match_at(s@, d@, pos + j));
                    }
                    lemma_first_match(rest, d@, 0);
                    if first_match(rest, d@, 0) is None {
                        assert(!match_at(rest, d@, i - pos));
                    }
                    let k = first_match(rest, d@, 0)->Some_0;
                    if k < i - pos {
                        assert(!match_at(rest, d@, k));
                    }
                    if k > i - pos {
                        assert(!match_at(rest, d@, i - pos));
                    }
                    assert(first_match(rest, d@, 0) == Some(i - pos));
                }
                let piece = crate::bytes::sub_bytes(s, pos, i);
                proof {
                    assert(piece@ =~= rest.subrange(0, i - pos));
                }
                out.push(piece);
                let newpos = i + d.len();
                proof {
                    let tail = s@.subrange(newpos as int, s@.len() as int);
                    assert(tail =~= rest.subrange(i - pos + d@.len(), rest.len() as int));
                    assert(split_by(rest, d@) == seq![rest.subrange(0, i - pos)] + split_by(
                        tail,
                        d@,
                    ));
                    assert(piece_views(out@) =~= prev + seq![rest.subrange(0, i - pos)]);
                    assert(piece_views(out@) + split_by(tail, d@) =~= prev + split_by(rest, d@));
                }
                pos = newpos;
            },
            None => {
                proof {
                    lemma_first_match(s@, d@, pos as int);
                    assert forall|j: int| 0 <= j < rest.len() implies !match_at(
                        rest,
                        d@,
                        j,
                    ) by {
                        if j + d@.len() <= rest.len() {
                            assert(rest.subrange(j, j + d@.len()) =~= s@.subrange(
                                pos + j,
                                pos + j + d@.len(),
                            ));
                            assert(!match_at(s@, d@, pos + j));
                        }
                    }
                    lemma_first_match(rest, d@, 0);
                    if first_match(rest, d@, 0) is Some {
                        let k = first_match(rest, d@, 0)->Some_0;
                        assert(match_at(rest, d@, k));
                        assert(k < rest.len() || d@.len() == 0 || k + d@.len() > rest.len());
                        if k >= rest.len() {
                            assert(!match_at(rest, d@, k));
                        }
                    }
                    assert(first_match(rest, d@, 0) is None);
                    assert(split_by(rest, d@) == seq![rest]);
                }
                let piece = crate::bytes::sub_bytes(s, pos, s.len());
                proof {
                    assert(piece@ =~= rest);
                }
                out.push(piece);
                proof {
                    assert(piece_views(out@) =~= prev + seq![rest]);
                    assert(split_by(s@, d@) =~= piece_views(out@));
                }
                return out;
            },
        }
    }
}


/// The accumulating header state of one part.
pub struct HeadState {
    pub name: Option<Vec<u8>>,
    pub filename: Option<Vec<u8>>,
    pub content_type: Option<Vec<u8>>,
}

/// The mathematical image of the header state.
pub ghost struct HeadView {
    pub name: Option<Seq<u8>>,
    pub filename: Option<Seq<u8>>,
    pub content_type: Option<Seq<u8>>,
}

impl View for HeadState {
    type V = HeadView;

    open spec fn view(&self) -> HeadView {
        HeadView {
            name: match self.name {
                Some(ref n) => Some(n@),
                None => None,
            },
            filename: match self.filename {
                Some(ref f) => Some(f@),
                None => None,
            },
            content_type: match self.content_type {
                Some(ref c) => Some(c@),
                None => None,
            },
        }
    }
}

/// True when `p` is a prefix of `s`.
pub open spec fn has_prefix(s: Seq<u8>, p: Seq<u8>) -> bool {
    p.len() <= s.len() && s.subrange(0, p.len() as int) == p
}

/// The text between position `k` and the next quote, if a quote follows.
pub open spec fn quoted_value(t: Seq<u8>, k: int) -> Option<Seq<u8>> {
    let tail = t.subrange(k, t.len() as int);
    match crate::numtext::first_byte2(tail, 0, 0x22, 0x22) {
        None => None,
        Some(j) => Some(tail.subrange(0, j)),
    }
}

/// One attribute of a content-disposition value applied to the collected
/// name and filename: `name="..."` and `filename="..."` are read, anything
/// else is passed over, and a missing closing quote fails the part.
pub open spec fn spec_disp_attr(a: Seq<u8>, st: (Option<Seq<u8>>, Option<Seq<u8>>)) -> Option<
    (Option<Seq<u8>>, Option<Seq<u8>>),
> {
    let t = crate::bytes::trim_spec(a);
    if has_prefix(t, crate::json::lit_bytes(("name=\"")@)) {
        match quoted_value(t, crate::json::lit_bytes(("name=\"")@).len() as int) {
            None => None,
            Some(v) => Some((Some(v), st.1)),
        }
    } else if has_prefix(t, crate::json::lit_bytes(("filename=\"")@)) {
        match quoted_value(t, crate::json::lit_bytes(("filename=\"")@).len() as int) {
            None => None,
            Some(v) => Some((st.0, Some(v))),
        }
    } else {
        Some(st)
    }
}

/// All attributes of a content-disposition value, applied in order.
pub open spec fn spec_disp_attrs(
    attrs: Seq<Seq<u8>>,
    st: (Option<Seq<u8>>, Option<Seq<u8>>),
) -> Option<(Option<Seq<u8>>, Option<Seq<u8>>)>
    decreases attrs.len(),
{
    if attrs.len() == 0 {
        Some(st)
    } else {
        match spec_disp_attr(attrs[0], st) {
            None => None,
            Some(st2) => spec_disp_attrs(attrs.drop_first(), st2),
        }
    }
}

/// One header line applied to the header state.  The line is split at its
/// first colon; the header name is compared in lower case.  A non-empty
/// line without a colon fails the part.
pub open spec fn spec_header_line(line: Seq<u8>, st: HeadView) -> Option<HeadView> {
    if line.len() == 0 {
        Some(st)
    } else {
        match crate::numtext::first_byte2(line, 0, 0x3a, 0x3a) {
            None => None,
            Some(c) => {
                let hname = crate::bytes::lower_seq(crate::bytes::trim_spec(line.subrange(0, c)));
                let hval = crate::bytes::trim_spec(line.subrange(c + 1, line.len() as int));
                if hname == crate::json::lit_bytes(("content-disposition")@) {
                    match spec_disp_attrs(
                        split_by(hval, crate::json::lit_bytes((";")@)),
                        (st.name, st.filename),
                    ) {
                        None => None,
                        Some(nf) => Some(
                            HeadView { name: nf.0, filename: nf.1, content_type: st.content_type },
                        ),
                    }
                } else if hname == crate::json::lit_bytes(("content-type")@) {
                    Some(HeadView { name: st.name, filename: st.filename, content_type: Some(hval) })
                } else {
                    Some(st)
                }
            },
        }
    }
}

/// All header lines applied in order.
pub open spec fn spec_header_lines(lines: Seq<Seq<u8>>, st: HeadView) -> Option<HeadView>
    decreases lines.len(),
{
    if lines.len() == 0 {
        Some(st)
    } else {
        match spec_header_line(lines[0], st) {
            None => None,
            Some(st2) => spec_header_lines(lines.drop_first(), st2),
        }
    }
}

/// An empty header state.
pub open spec fn empty_head() -> HeadView {
    HeadView { name: None, filename: None, content_type: None }
}

/// One part read from the text between two delimiters: the headers run to
/// the first blank line, the content is everything after it, and the
/// content-disposition must have named the field.
pub open spec fn spec_parse_part(p: Seq<u8>) -> Option<PartView> {
    match first_match(p, crate::json::lit_bytes(("\r\n\r\n")@), 0) {
        None => None,
        Some(h) => match spec_header_lines(
            split_by(p.subrange(0, h), crate::json::lit_bytes(("\r\n")@)),
            empty_head(),
        ) {
            None => None,
            Some(st) => match st.name {
                None => None,
                Some(n) => Some(
                    PartView {
                        name: n,
                        filename: st.filename,
                        content_type: st.content_type,
                        data: p.subrange(h + 4, p.len() as int),
                    },
                ),
            },
        },
    }
}

/// The segments after the leading dash-boundary, read in order: a segment
/// opening with `--` closes the stream, one opening with `\r\n` is a part,
/// and a lone empty final segment is a stream that ended at a boundary.
pub open spec fn spec_parse_segments(segs: Seq<Seq<u8>>) -> Option<Seq<PartView>>
    decreases segs.len(),
{
    if segs.len() == 0 {
        Some(Seq::empty())
    } else {
        let s0 = segs[0];
        if has_prefix(s0, crate::json::lit_bytes(("--")@)) {
            Some(Seq::empty())
        } else if s0.len() == 0 && segs.len() == 1 {
            Some(Seq::empty())
        } else if has_prefix(s0, crate::json::lit_bytes(("\r\n")@)) {
            match spec_parse_part(s0.subrange(2, s0.len() as int)) {
                None => None,
                Some(pv) => match spec_parse_segments(segs.drop_first()) {
                    None => None,
                    Some(rest) => Some(seq![pv] + rest),
                },
            }
        } else {
            None
        }
    }
}

/// The leading delimiter `--<boundary>`.
pub open spec fn dash_boundary(bnd: Seq<u8>) -> Seq<u8> {
    crate::json::lit_bytes(("--")@) + bnd
}

/// The inner delimiter `\r\n--<boundary>`.
pub open spec fn part_delim(bnd: Seq<u8>) -> Seq<u8> {
    crate::json::lit_bytes(("\r\n--")@) + bnd
}

/// The parts of a multipart body, or `None` when the body is malformed:
/// it does not open with `--<boundary>`, a part has no blank line or no
/// field name, a header line has no colon, or a quoted attribute never
/// closes.
pub open spec fn spec_parse_multipart(body: Seq<u8>, bnd: Seq<u8>) -> Option<Seq<PartView>> {
    if !has_prefix(body, dash_boundary(bnd)) {
        None
    } else {
        spec_parse_segments(
            split_by(body.subrange(dash_boundary(bnd).len() as int, body.len() as int), part_delim(bnd)),
        )
    }
}


/// Reads one disposition attribute into the collected name and filename.
fn disp_attr(a: &[u8], name: Option<Vec<u8>>, filename: Option<Vec<u8>>) -> (r: Option<
    (Option<Vec<u8>>, Option<Vec<u8>>),
>)
    ensures
        ({
            let st = (
                match name {
                    Some(n) => Some(n@),
                    None => None,
                },
                match filename {
                    Some(f) => Some(f@),
                    None => None,
                },
            );
            match r {
                None => spec_disp_attr(a@, st) is None,
                Some(nf) => spec_disp_attr(a@, st) == Some(
                    (
                        match nf.0 {
                            Some(n) => Some(n@),
                            None => None,
                        },
                        match nf.1 {
                            Some(f) => Some(f@),
                            None => None,
                        },
                    ),
                ),
            }
        }),
{
    let t = crate::bytes::trim_ascii(a);
    let name_key = "name=\"".as_bytes();
    let file_key = "filename=\"".as_bytes();
    if crate::bytes::starts_with(t.as_slice(), name_key) {
        let tail = crate::bytes::sub_bytes(t.as_slice(), name_key.len(), t.len());
        match crate::numtext::find_byte2(tail.as_slice(), 0x22, 0x22) {
            None => None,
            Some(j) => {
                proof {
                    crate::numtext::lemma_first_byte2(tail@, 0, 0x22, 0x22);
                }
                let v = crate::bytes::sub_bytes(tail.as_slice(), 0, j);
                Some((Some(v), filename))
            },
        }
    } else if crate::bytes::starts_with(t.as_slice(), file_key) {
        let tail = crate::bytes::sub_bytes(t.as_slice(), file_key.len(), t.len());
        match crate::numtext::find_byte2(tail.as_slice(), 0x22, 0x22) {
            None => None,
            Some(j) => {
                proof {
                    crate::numtext::lemma_first_byte2(tail@, 0, 0x22, 0x22);
                }
                let v = crate::bytes::sub_bytes(tail.as_slice(), 0, j);
                Some((name, Some(v)))
            },
        }
    } else {
        Some((name, filename))
    }
}

/// Reads one header line into the header state.
#[verifier::loop_isolation(false)]
fn header_line(line: &[u8], st: HeadState) -> (r: Option<HeadState>)
    ensures
        match r {
            None => spec_header_line(line@, st@) is None,
            Some(st2) => spec_header_line(line@, st@) == Some(st2@),
        },
{
    if line.len() == 0 {
        return Some(st);
    }
    match crate::numtext::find_byte2(line, 0x3a, 0x3a) {
        None => None,
        Some(c) => {
            proof {
                crate::numtext::lemma_first_byte2(line@, 0, 0x3a, 0x3a);
            }
            let raw_name = crate::bytes::sub_bytes(line, 0, c);
            let trimmed = crate::bytes::trim_ascii(raw_name.as_slice());
            let mut hname: Vec<u8> = Vec::new();
            let mut i: usize = 0;
            while i < trimmed.len()
                invariant
                    i <= trimmed@.len(),
                    hname@ == crate::bytes::lower_seq(trimmed@).subrange(0, i as int),
                decreases trimmed@.len() - i,
            {
                let ch = trimmed[i];
                let lo = if 0x41 <= ch && ch <= 0x5a {
                    ch + 0x20
                } else {
                    ch
                };
                hname.push(lo);
                proof {
                    assert(lo == crate::bytes::lower(trimmed@[i as int]));
                    assert(hname@ =~= crate::bytes::lower_seq(trimmed@).subrange(0, i + 1));
                }
                i = i + 1;
            }
            proof {
                assert(hname@ =~= crate::bytes::lower_seq(trimmed@));
            }
            let line_len = line.len();
            let raw_val = crate::bytes::sub_bytes(line, c + 1, line_len);
            let hval = crate::bytes::trim_ascii(raw_val.as_slice());
            if crate::bytes::bytes_eq(hname.as_slice(), "content-disposition".as_bytes()) {
                proof {
                    reveal_strlit(";");
                    vstd::utf8::is_ascii_chars_encode_utf8((";")@);
                }
                let attrs = split_bytes(hval.as_slice(), ";".as_bytes());
                let mut name: Option<Vec<u8>> = st.name;
                let mut filename: Option<Vec<u8>> = st.filename;
                let ghost attr_views = piece_views(attrs@);
                let mut k: usize = 0;
                proof {
                    assert(attr_views.skip(0) =~= attr_views);
                }
                while k < attrs.len()
                    invariant
                        k <= attrs@.len(),
                        attr_views == piece_views(attrs@),
                        spec_disp_attrs(attr_views, (st@.name, st@.filename)) == spec_disp_attrs(
                            attr_views.skip(k as int),
                            (
                                match name {
                                    Some(ref n) => Some(n@),
                                    None => None,
                                },
                                match filename {
                                    Some(ref f) => Some(f@),
                                    None => None,
                                },
                            ),
                        ),
                    decreases attrs@.len() - k,
                {
                    let ghost pre_state = (
                        match name {
                            Some(ref n) => Some(n@),
                            None => None,
                        },
                        match filename {
                            Some(ref f) => Some(f@),
                            None => None,
                        },
                    );
                    proof {
                        assert(attr_views.skip(k as int)[0] == attrs@[k as int]@);
                        assert(attr_views.skip(k as int).drop_first() =~= attr_views.skip(
                            k + 1,
                        ));
                    }
                    match disp_attr(attrs[k].as_slice(), name, filename) {
                        None => {
                            return None;
                        },
                        Some(nf) => {
                            name = nf.0;
                            filename = nf.1;
                        },
                    }
                    k = k + 1;
                }
                proof {
                    assert(attr_views.skip(attr_views.len() as int) =~= Seq::<Seq<u8>>::empty());
                }
                Some(HeadState { name, filename, content_type: st.content_type })
            } else if crate::bytes::bytes_eq(hname.as_slice(), "content-type".as_bytes()) {
                Some(HeadState { name: st.name, filename: st.filename, content_type: Some(hval) })
            } else {
                Some(st)
            }
        },
    }
}

/// Reads the text of one part.
#[verifier::loop_isolation(false)]
fn parse_part(p: &[u8]) -> (r: Option<RawPart>)
    ensures
        match r {
            None => spec_parse_part(p@) is None,
            Some(part) => spec_parse_part(p@) == Some(part@),
        },
{
    let blank = "\r\n\r\n".as_bytes();
    match crate::bytes::find_from(p, blank, 0) {
        None => None,
        Some(h) => {
            proof {
                lemma_first_match(p@, blank@, 0);
                reveal_strlit("\r\n\r\n");
                vstd::utf8::is_ascii_chars_encode_utf8(("\r\n\r\n")@);
                assert(blank@.len() == 4);
            }
            let head = crate::bytes::sub_bytes(p, 0, h);
            proof {
                reveal_strlit("\r\n");
                vstd::utf8::is_ascii_chars_encode_utf8(("\r\n")@);
            }
            let lines = split_bytes(head.as_slice(), "\r\n".as_bytes());
            let ghost line_views = piece_views(lines@);
            let mut st = HeadState { name: None, filename: None, content_type: None };
            proof {
                assert(st@ == empty_head());
            }
            let mut k: usize = 0;
            proof {
                assert(line_views.skip(0) =~= line_views);
            }
            while k < lines.len()
                invariant
                    k <= lines@.len(),
                    line_views == piece_views(lines@),
                    spec_header_lines(line_views, empty_head()) == spec_header_lines(
                        line_views.skip(k as int),
                        st@,
                    ),
                decreases lines@.len() - k,
            {
                proof {
                    assert(line_views.skip(k as int)[0] == lines@[k as int]@);
                    assert(line_views.skip(k as int).drop_first() =~= line_views.skip(k + 1));
                }
                match header_line(lines[k].as_slice(), st) {
                    None => {
                        return None;
                    },
                    Some(st2) => {
                        st = st2;
                    },
                }
                k = k + 1;
            }
            proof {
                assert(line_views.skip(line_views.len() as int) =~= Seq::<Seq<u8>>::empty());
            }
            match st.name {
                None => None,
                Some(n) => {
                    let p_len = p.len();
                    let data = crate::bytes::sub_bytes(p, h + 4, p_len);
                    Some(RawPart { name: n, filename: st.filename, content_type: st.content_type, data })
                },
            }
        },
    }
}

/// Parses a whole multipart body against its boundary token.  `None` is a
/// malformed body; the parts come back in body order.
#[verifier::loop_isolation(false)]
pub fn parse_multipart(body: &[u8], bnd: &[u8]) -> (r: Option<Vec<RawPart>>)
    ensures
        match r {
            None => spec_parse_multipart(body@, bnd@) is None,
            Some(parts) => spec_parse_multipart(body@, bnd@) == Some(part_views(parts@)),
        },
{
    let mut dash: Vec<u8> = Vec::new();
    crate::json::push_lit(&mut dash, "--");
    crate::json::push_bytes(&mut dash, bnd);
    proof {
        assert(dash@ =~= dash_boundary(bnd@));
    }
    if !crate::bytes::starts_with(body, dash.as_slice()) {
        return None;
    }
    let mut delim: Vec<u8> = Vec::new();
    crate::json::push_lit(&mut delim, "\r\n--");
    crate::json::push_bytes(&mut delim, bnd);
    proof {
        assert(delim@ =~= part_delim(bnd@));
        assert(delim@.len() > 0) by {
            reveal_strlit("\r\n--");
            vstd::utf8::is_ascii_chars_encode_utf8(("\r\n--")@);
        }
    }
    let body_len = body.len();
    let rest = crate::bytes::sub_bytes(body, dash.len(), body_len);
    let segs = split_bytes(rest.as_slice(), delim.as_slice());
    let ghost seg_views = piece_views(segs@);
    let mut out: Vec<RawPart> = Vec::new();
    let mut k: usize = 0;
    proof {
        assert(part_views(out@) =~= Seq::<PartView>::empty());
        assert(seg_views.skip(0) =~= seg_views);
        assert(rest@ == body@.subrange(dash_boundary(bnd@).len() as int, body@.len() as int));
        if spec_parse_segments(seg_views) is Some {
            assert(part_views(out@) + spec_parse_segments(seg_views)->Some_0
                =~= spec_parse_segments(seg_views)->Some_0);
        }
    }
    while k < segs.len()
        invariant
            k <= segs@.len(),
            seg_views == piece_views(segs@),
            spec_parse_multipart(body@, bnd@) == (match spec_parse_segments(
                seg_views.skip(k as int),
            ) {
                None => None::<Seq<PartView>>,
                Some(rest_parts) => Some(part_views(out@) + rest_parts),
            }),
        decreases segs@.len() - k,
    {
        let ghost skipped = seg_views.skip(k as int);
        proof {
            assert(skipped[0] == segs@[k as int]@);
            assert(skipped.drop_first() =~= seg_views.skip(k + 1));
        }
        let seg = &segs[k];
        if crate::bytes::starts_with(seg.as_slice(), "--".as_bytes()) {
            return Some(out);
        }
        if seg.len() == 0 && k + 1 == segs.len() {
            proof {
                assert(skipped.len() == 1);
            }
            return Some(out);
        }
        if !crate::bytes::starts_with(seg.as_slice(), "\r\n".as_bytes()) {
            proof {
                if skipped[0].len() == 0 && skipped.len() == 1 {
                    assert(k + 1 == segs@.len());
                }
            }
            return None;
        }
        proof {
            reveal_strlit("\r\n");
            vstd::utf8::is_ascii_chars_encode_utf8(("\r\n")@);
            assert(crate::json::lit_bytes(("\r\n")@).len() == 2);
            assert(skipped[0].len() >= 2);
        }
        let seg_len = seg.len();
        let inner = crate::bytes::sub_bytes(seg.as_slice(), 2, seg_len);
        let ghost prev_parts = part_views(out@);
        match parse_part(inner.as_slice()) {
            None => {
                return None;
            },
            Some(part) => {
                proof {
                    assert(inner@ =~= skipped[0].subrange(2, skipped[0].len() as int));
                }
                out.push(part);
                proof {
                    assert(part_views(out@) =~= prev_parts + seq![out@.last()@]);
                    if spec_parse_segments(seg_views.skip(k + 1)) is Some {
                        let tail_parts = spec_parse_segments(seg_views.skip(k + 1))->Some_0;
                        assert(prev_parts + (seq![out@.last()@] + tail_parts) =~= part_views(out@)
                            + tail_parts);
                    }
                }
            },
        }
        k = k + 1;
    }
    proof {
        assert(seg_views.skip(seg_views.len() as int) =~= Seq::<Seq<u8>>::empty());
    }
    Some(out)
}

} // verus!
