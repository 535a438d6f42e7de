//! The combined `.cff` file, which holds the `.cfg`, `.dat`, `.hdr` and
//! `.inf` files one after the other, each after a header line.

use vstd::prelude::*;
use vstd::utf8::{decode_utf8, valid_utf8};
use crate::cfg::line::usize_of;
use crate::codes::{DataFormat, FileType, spec_data_format, spec_file_type};
use crate::error::{ComtradeError, ErrorView};
use crate::text::{
    decode_utf8_bytes, join_lines, parse_unsigned_str, push_char, push_str, trim, trimmed,
};

verus! {

/// What `regex::Regex::new(pattern)` followed by `captures(text)` gives,
/// as the text of each named group in `names` (`None` for a group that did
/// not take part in the match); `None` where the pattern does not compile
/// or does not match.
pub uninterp spec fn regex_named_captures(
    pattern: Seq<char>,
    text: Seq<char>,
    names: Seq<Seq<char>>,
) -> Option<Seq<Option<Seq<char>>>>;

pub open spec fn opt_string_views(v: Seq<Option<String>>) -> Seq<Option<Seq<char>>> {
    v.map_values(|o: Option<String>| match o {
        Some(s) => Some(s@),
        None => None,
    })
}

/// Compiles `pattern` with `regex::Regex::new` and runs `Regex::captures`
/// on `text`, taking the named groups `names` out of the match; the result
/// is named by `regex_named_captures`, one entry per name.
#[verifier::external_body]
pub(crate) fn regex_captures(pattern: &str, text: &str, names: &Vec<&str>) -> (r: Option<Vec<Option<String>>>)
    ensures
        match r {
            Some(v) => regex_named_captures(pattern@, text@, names@.map_values(|n: &str| n@))
                == Some(opt_string_views(v@)) && v@.len() == names@.len(),
            None => regex_named_captures(pattern@, text@, names@.map_values(|n: &str| n@)) is None,
        },
{
    let caps = regex::Regex::new(pattern).ok()?.captures(text)?;
    Some(names.iter().map(|n| caps.name(n).map(|m| m.as_str().to_string())).collect())
}

/// The header line of a section of a `.cff` file, such as
/// `--- file type: DAT ASCII: 1234 ---`, in any case.
pub open spec fn cff_header_pattern() -> Seq<char> {
    "(?i)---\\s*file type:\\s*(?P<file_type>[a-z]+)(\\s+(?P<data_format>[a-z0-9]+))?\\s*(:\\s*(?P<data_size>\\d+))?\\s*---$"@
}

pub open spec fn cff_group_names() -> Seq<Seq<char>> {
    seq!["file_type"@, "data_format"@, "data_size"@]
}

/// The end of the line that starts at `p`: just after its `\n`, or the end
/// of `b` where no `\n` follows.
pub open spec fn line_end(b: Seq<u8>, p: int) -> int
    decreases b.len() - p,
{
    if p >= b.len() {
        b.len() as int
    } else if b[p] == 10u8 {
        p + 1
    } else {
        line_end(b, p + 1)
    }
}

pub proof fn lemma_line_end(b: Seq<u8>, p: int)
    requires
        0 <= p < b.len(),
    ensures
        p < line_end(b, p) <= b.len(),
    decreases b.len() - p,
{
    if b[p] != 10u8 {
        if p + 1 < b.len() {
            lemma_line_end(b, p + 1);
        } else {
            assert(line_end(b, p + 1) == b.len());
        }
    }
}

/// The sections of a `.cff` file while it is read.
pub ghost struct CffStateView {
    pub current_file: Option<FileType>,
    pub data_format: Option<DataFormat>,
    pub data_size: Option<usize>,
    pub cfg: Seq<Seq<char>>,
    pub dat: Seq<Seq<char>>,
    pub dat_bytes: Seq<u8>,
    pub hdr: Seq<Seq<char>>,
    pub inf: Seq<Seq<char>>,
}

/// A header line with the captured groups `caps`: it opens a section and may
/// set the data format and the data size, which must read as a `usize`.
pub open spec fn cff_header_step(st: CffStateView, caps: Seq<Option<Seq<char>>>) -> Result<
    CffStateView,
    ErrorView,
> {
    match caps[0] {
        None => Err(ErrorView::ParserError("unable to find file type in CFF header Regexp"@)),
        Some(ft) => match spec_file_type(ft) {
            Err(e) => Err(e),
            Ok(file_type) => {
                let fmt = match caps[1] {
                    None => Ok(st.data_format),
                    Some(t) => match spec_data_format(t) {
                        Err(e) => Err(e),
                        Ok(f) => Ok(Some(f)),
                    },
                };
                match fmt {
                    Err(e) => Err(e),
                    Ok(data_format) => {
                        let next = CffStateView { current_file: Some(file_type), data_format, ..st };
                        match caps[2] {
                            None => Ok(next),
                            Some(t) => match usize_of(t) {
                                Some(n) => Ok(CffStateView { data_size: Some(n), ..next }),
                                None => Err(
                                    ErrorView::ParserError(
                                        "unable to parse .dat size: '"@ + t + "'"@,
                                    ),
                                ),
                            },
                        }
                    },
                }
            },
        },
    }
}

/// Whether the section that is open holds binary samples: a `.dat` section
/// in a binary data format.
pub open spec fn in_binary_section(st: CffStateView) -> bool {
    &&& st.current_file == Some(FileType::Dat)
    &&& st.data_format is Some
    &&& st.data_format != Some(DataFormat::Ascii)
}

/// A content line: it goes to the section that is open. In a binary `.dat`
/// section, whose bytes were taken right after its header, only blank lines
/// may follow; a line of a `.dat` section whose data format is not known is
/// refused as binary data.
pub open spec fn cff_content_step(st: CffStateView, line: Seq<char>) -> Result<
    CffStateView,
    ErrorView,
> {
    match st.current_file {
        Some(FileType::Cfg) => Ok(CffStateView { cfg: st.cfg.push(line), ..st }),
        Some(FileType::Dat) => match st.data_format {
            Some(DataFormat::Ascii) => Ok(CffStateView { dat: st.dat.push(line), ..st }),
            None => Err(
                ErrorView::ParserError("binary data in .cff files is not yet supported"@),
            ),
            Some(_) => if line.len() == 0 {
                Ok(st)
            } else {
                Err(ErrorView::ParserError("unexpected text after binary data in .cff"@))
            },
        },
        Some(FileType::Hdr) => Ok(CffStateView { hdr: st.hdr.push(line), ..st }),
        Some(FileType::Inf) => Ok(CffStateView { inf: st.inf.push(line), ..st }),
        None => Err(
            ErrorView::ParserError("encountered file contents line before header in .cff"@),
        ),
    }
}

/// After a header that opens a binary `.dat` section that ends at `e`: the
/// `data_size` bytes that follow are the section's samples.
pub open spec fn cff_binary_step(st: CffStateView, b: Seq<u8>, e: int) -> Result<
    (CffStateView, int),
    ErrorView,
> {
    match st.data_size {
        None => Err(ErrorView::ParserError("missing size of binary .dat section in .cff"@)),
        Some(n) => if e + n > b.len() {
            Err(ErrorView::ParserError("unexpected end of binary .dat section in .cff"@))
        } else {
            Ok(
                (
                    CffStateView { dat_bytes: st.dat_bytes + b.subrange(e, e + n), ..st },
                    e + n,
                ),
            )
        },
    }
}

/// The state after reading `b` from `p` on, starting in `st`: line by line
/// (as `read_line` gives them, then trimmed), each line being UTF-8 and a
/// header or a content line; the bytes of a binary `.dat` section are taken
/// as they are.
pub open spec fn cff_from(b: Seq<u8>, p: int, st: CffStateView) -> Result<CffStateView, ErrorView>
    decreases b.len() - p,
{
    if p < 0 || p >= b.len() {
        Ok(st)
    } else {
        let e = line_end(b, p);
        proof {
            lemma_line_end(b, p);
        }
        let raw = b.subrange(p, e);
        if !valid_utf8(raw) {
            Err(
                ErrorView::ParserError(
                    "I/O error reading .cff file: stream did not contain valid UTF-8"@,
                ),
            )
        } else {
            let line = trim(decode_utf8(raw));
            match regex_named_captures(cff_header_pattern(), line, cff_group_names()) {
                None => match cff_content_step(st, line) {
                    Err(x) => Err(x),
                    Ok(s2) => cff_from(b, e, s2),
                },
                Some(caps) => match cff_header_step(st, caps) {
                    Err(x) => Err(x),
                    Ok(s2) => if in_binary_section(s2) {
                        match cff_binary_step(s2, b, e) {
                            Err(x) => Err(x),
                            Ok((s3, q)) => cff_from(b, q, s3),
                        }
                    } else {
                        cff_from(b, e, s2)
                    },
                },
            }
        }
    }
}

/// While a text section is open (the `.cfg`, `.hdr` or `.inf` file), a
/// line that is not a section header is kept: reading on from that line is
/// reading on from the next line with the line's text, trimmed, added at
/// the end of the open section and every other section as it was.
pub proof fn lemma_text_line_kept(b: Seq<u8>, p: int, st: CffStateView)
    requires
        0 <= p < b.len(),
        valid_utf8(b.subrange(p, line_end(b, p))),
        regex_named_captures(
            cff_header_pattern(),
            trim(decode_utf8(b.subrange(p, line_end(b, p)))),
            cff_group_names(),
        ) is None,
    ensures
        ({
            let e = line_end(b, p);
            let line = trim(decode_utf8(b.subrange(p, e)));
            &&& st.current_file == Some(FileType::Cfg) ==> cff_from(b, p, st) == cff_from(
                b,
                e,
                (CffStateView { cfg: st.cfg.push(line), ..st }),
            )
            &&& st.current_file == Some(FileType::Hdr) ==> cff_from(b, p, st) == cff_from(
                b,
                e,
                (CffStateView { hdr: st.hdr.push(line), ..st }),
            )
            &&& st.current_file == Some(FileType::Inf) ==> cff_from(b, p, st) == cff_from(
                b,
                e,
                (CffStateView { inf: st.inf.push(line), ..st }),
            )
        }),
{
}

proof fn lemma_line_end_at(b: Seq<u8>, p: int, n: int)
    requires
        0 <= p,
        1 <= n,
        p + n <= b.len(),
        b[p + n - 1] == 10u8,
        forall|i: int| p <= i < p + n - 1 ==> b[i] != 10u8,
    ensures
        line_end(b, p) == p + n,
    decreases n,
{
    if n > 1 {
        lemma_line_end_at(b, p + 1, n - 1);
    }
}

/// The text of a line of a `.cff` file as the file's sections keep it:
/// decoded, without surrounding whitespace.
pub open spec fn kept_text(raw: Seq<u8>) -> Seq<char> {
    trim(decode_utf8(raw))
}

/// Every line of an open `.inf` section is kept: where the bytes from `p`
/// on begin with the lines `ls` (each ending in its only `\n`, each UTF-8,
/// none a section header), reading on from `p` is reading on from after
/// them with their texts added, in order, to the `.inf` section; where the
/// file ends after them, they are the last lines of that section.
pub proof fn lemma_inf_lines_kept(b: Seq<u8>, p: int, ls: Seq<Seq<u8>>, st: CffStateView)
    requires
        st.current_file == Some(FileType::Inf),
        0 <= p,
        p + ls.flatten().len() <= b.len(),
        b.subrange(p, p + ls.flatten().len()) == ls.flatten(),
        forall|i: int|
            0 <= i < ls.len() ==> {
                &&& (#[trigger] ls[i]).len() >= 1
                &&& ls[i].last() == 10u8
                &&& forall|j: int| 0 <= j < ls[i].len() - 1 ==> ls[i][j] != 10u8
                &&& valid_utf8(ls[i])
                &&& regex_named_captures(cff_header_pattern(), kept_text(ls[i]), cff_group_names())
                    is None
            },
    ensures
        cff_from(b, p, st) == cff_from(
            b,
            p + ls.flatten().len(),
            (CffStateView { inf: st.inf + ls.map_values(|l: Seq<u8>| kept_text(l)), ..st }),
        ),
        p + ls.flatten().len() == b.len() ==> cff_from(b, p, st) == Ok::<CffStateView, ErrorView>(
            (CffStateView { inf: st.inf + ls.map_values(|l: Seq<u8>| kept_text(l)), ..st }),
        ),
    decreases ls.len(),
{
    if ls.len() == 0 {
        assert(st.inf + ls.map_values(|l: Seq<u8>| kept_text(l)) =~= st.inf);
        assert((CffStateView { inf: st.inf, ..st }) == st);
    } else {
        let l0 = ls[0];
        let rest = ls.drop_first();
        let n = l0.len() as int;
        assert(ls.flatten() == l0 + rest.flatten());
        assert forall|i: int| 0 <= i < n implies b[p + i] == l0[i] by {
            assert(b.subrange(p, p + ls.flatten().len())[i] == b[p + i]);
            assert((l0 + rest.flatten())[i] == l0[i]);
        }
        assert(l0.len() >= 1);
        assert forall|i: int| p <= i < p + n - 1 implies b[i] != 10u8 by {
            assert(b[p + (i - p)] == l0[i - p]);
        }
        assert(b[p + (n - 1)] == l0[n - 1]);
        lemma_line_end_at(b, p, n);
        assert(b.subrange(p, p + n) =~= l0);
        lemma_text_line_kept(b, p, st);
        let st2 = CffStateView { inf: st.inf.push(kept_text(l0)), ..st };
        assert forall|i: int| 0 <= i < rest.flatten().len() implies b.subrange(
            p + n,
            p + n + rest.flatten().len(),
        )[i] == rest.flatten()[i] by {
            assert(b.subrange(p, p + ls.flatten().len())[n + i] == b[p + n + i]);
            assert((l0 + rest.flatten())[n + i] == rest.flatten()[i]);
        }
        assert(b.subrange(p + n, p + n + rest.flatten().len()) =~= rest.flatten());
        assert forall|i: int| 0 <= i < rest.len() implies {
            &&& (#[trigger] rest[i]).len() >= 1
            &&& rest[i].last() == 10u8
            &&& forall|j: int| 0 <= j < rest[i].len() - 1 ==> rest[i][j] != 10u8
            &&& valid_utf8(rest[i])
            &&& regex_named_captures(cff_header_pattern(), kept_text(rest[i]), cff_group_names())
                is None
        } by {
            assert(rest[i] == ls[i + 1]);
        }
        lemma_inf_lines_kept(b, p + n, rest, st2);
        assert(st2.inf + rest.map_values(|l: Seq<u8>| kept_text(l)) =~= st.inf + ls.map_values(
            |l: Seq<u8>| kept_text(l),
        ));
    }
}

/// The bytes of a binary `.dat` section are the `size` bytes right after
/// its header line, taken as they are: reading on from a header that opens
/// such a section is reading on from after those bytes with them added to
/// the section's data.
pub proof fn lemma_binary_section_bytes(
    b: Seq<u8>,
    p: int,
    st: CffStateView,
    caps: Seq<Option<Seq<char>>>,
    opened: CffStateView,
    size: usize,
)
    requires
        0 <= p < b.len(),
        valid_utf8(b.subrange(p, line_end(b, p))),
        regex_named_captures(
            cff_header_pattern(),
            trim(decode_utf8(b.subrange(p, line_end(b, p)))),
            cff_group_names(),
        ) == Some(caps),
        cff_header_step(st, caps) == Ok::<CffStateView, ErrorView>(opened),
        opened.current_file == Some(FileType::Dat),
        opened.data_format is Some,
        opened.data_format != Some(DataFormat::Ascii),
        opened.data_size == Some(size),
        line_end(b, p) + size <= b.len(),
    ensures
        cff_from(b, p, st) == cff_from(
            b,
            line_end(b, p) + size,
            (CffStateView {
                dat_bytes: opened.dat_bytes + b.subrange(line_end(b, p), line_end(b, p) + size),
                ..opened
            }),
        ),
{
}

pub open spec fn cff_start() -> CffStateView {
    CffStateView {
        current_file: None,
        data_format: None,
        data_size: None,
        cfg: Seq::empty(),
        dat: Seq::empty(),
        dat_bytes: Seq::empty(),
        hdr: Seq::empty(),
        inf: Seq::empty(),
    }
}

/// The four files that a `.cff` file holds: the text of the `.cfg`,
/// `.hdr` and `.inf` sections, and of an ASCII `.dat` section or the bytes of
/// a binary one.
pub struct CffContents {
    pub cfg: String,
    pub dat: String,
    pub dat_bytes: Vec<u8>,
    pub hdr: String,
    pub inf: String,
}

pub ghost struct CffContentsView {
    pub cfg: Seq<char>,
    pub dat: Seq<char>,
    pub dat_bytes: Seq<u8>,
    pub hdr: Seq<char>,
    pub inf: Seq<char>,
}

impl View for CffContents {
    type V = CffContentsView;

    open spec fn view(&self) -> CffContentsView {
        CffContentsView {
            cfg: self.cfg@,
            dat: self.dat@,
            dat_bytes: self.dat_bytes@,
            hdr: self.hdr@,
            inf: self.inf@,
        }
    }
}

/// Reading a `.cff` file: its text sections, each joined with `\n`, and
/// the bytes of its binary `.dat` sections.
pub open spec fn spec_load_cff(b: Seq<u8>) -> Result<CffContentsView, ErrorView> {
    match cff_from(b, 0, cff_start()) {
        Err(e) => Err(e),
        Ok(st) => Ok(
            CffContentsView {
                cfg: join_lines(st.cfg),
                dat: join_lines(st.dat),
                dat_bytes: st.dat_bytes,
                hdr: join_lines(st.hdr),
                inf: join_lines(st.inf),
            },
        ),
    }
}

pub open spec fn string_views(v: Seq<String>) -> Seq<Seq<char>> {
    v.map_values(|x: String| x@)
}

/// The end of the line of `b` that starts at `p`.
fn find_line_end(b: &[u8], p: usize) -> (e: usize)
    requires
        p < b@.len(),
    ensures
        e as int == line_end(b@, p as int),
{
    let mut i = p;
    while i < b.len() && b[i] != 10u8
        invariant
            p <= i <= b@.len(),
            line_end(b@, i as int) == line_end(b@, p as int),
        decreases b.len() - i,
    {
        i = i + 1;
    }
    if i < b.len() {
        i + 1
    } else {
        i
    }
}

/// Appends the bytes `b[lo..hi]` to `out`.
fn append_range(out: &mut Vec<u8>, b: &[u8], lo: usize, hi: usize)
    requires
        lo <= hi <= b@.len(),
    ensures
        final(out)@ == old(out)@ + b@.subrange(lo as int, hi as int),
{
    let mut i = lo;
    while i < hi
        invariant
            lo <= i <= hi <= b@.len(),
            out@ == old(out)@ + b@.subrange(lo as int, i as int),
        decreases hi - i,
    {
        out.push(b[i]);
        assert(b@.subrange(lo as int, i + 1) =~= b@.subrange(lo as int, i as int).push(b@[i as int]));
        i = i + 1;
    }
}

/// The sections of a `.cff` file while it is read.
pub struct CffState {
    pub current_file: Option<FileType>,
    pub data_format: Option<DataFormat>,
    pub data_size: Option<usize>,
    pub cfg: Vec<String>,
    pub dat: Vec<String>,
    pub dat_bytes: Vec<u8>,
    pub hdr: Vec<String>,
    pub inf: Vec<String>,
}

impl View for CffState {
    type V = CffStateView;

    open spec fn view(&self) -> CffStateView {
        CffStateView {
            current_file: self.current_file,
            data_format: self.data_format,
            data_size: self.data_size,
            cfg: string_views(self.cfg@),
            dat: string_views(self.dat@),
            dat_bytes: self.dat_bytes@,
            hdr: string_views(self.hdr@),
            inf: string_views(self.inf@),
        }
    }
}

fn parser_error(m: &str) -> (r: ComtradeError)
    ensures
        r@ == ErrorView::ParserError(m@),
{
    ComtradeError::ParserError(m.to_owned())
}

/// Reads a header line whose named groups (file type, data format, data
/// size) the header pattern captured as `caps`.
pub fn read_header_line(st: &mut CffState, caps: &Vec<Option<String>>) -> (r: Result<
    (),
    ComtradeError,
>)
    requires
        caps@.len() == 3,
    ensures
        match r {
            Ok(_) => cff_header_step(old(st)@, opt_string_views(caps@)) == Ok::<
                CffStateView,
                ErrorView,
            >(final(st)@),
            Err(e) => cff_header_step(old(st)@, opt_string_views(caps@)) == Err::<
                CffStateView,
                ErrorView,
            >(e@),
        },
{
    let file_type = match &caps[0] {
        None => {
            return Err(parser_error("unable to find file type in CFF header Regexp"));
        },
        Some(t) => FileType::parse(t.as_str())?,
    };
    let data_format = match &caps[1] {
        None => st.data_format,
        Some(t) => Some(DataFormat::parse(t.as_str())?),
    };
    let data_size = match &caps[2] {
        None => st.data_size,
        Some(t) => {
            match parse_unsigned_str(t.as_str(), usize::MAX as u64) {
                None => {
                    let mut m = String::new();
                    push_str(&mut m, "unable to parse .dat size: '");
                    push_str(&mut m, t.as_str());
                    push_str(&mut m, "'");
                    return Err(ComtradeError::ParserError(m));
                },
                Some(n) => Some(n as usize),
            }
        },
    };
    st.current_file = Some(file_type);
    st.data_format = data_format;
    st.data_size = data_size;
    Ok(())
}

/// Reads a content line of the section that is open.
pub fn read_content_line(st: &mut CffState, line: String) -> (r: Result<(), ComtradeError>)
    ensures
        match r {
            Ok(_) => cff_content_step(old(st)@, line@) == Ok::<CffStateView, ErrorView>(
                final(st)@,
            ),
            Err(e) => cff_content_step(old(st)@, line@) == Err::<CffStateView, ErrorView>(e@),
        },
{
    match st.current_file {
        Some(FileType::Cfg) => {
            let ghost before = st.cfg@;
            st.cfg.push(line);
            assert(string_views(st.cfg@) =~= string_views(before).push(line@));
        },
        Some(FileType::Dat) => {
            match st.data_format {
                Some(DataFormat::Ascii) => {
                    let ghost before = st.dat@;
                    st.dat.push(line);
                    assert(string_views(st.dat@) =~= string_views(before).push(line@));
                },
                None => {
                    return Err(parser_error("binary data in .cff files is not yet supported"));
                },
                Some(_) => {
                    if !line.as_str().is_empty() {
                        return Err(parser_error("unexpected text after binary data in .cff"));
                    }
                },
            }
        },
        Some(FileType::Hdr) => {
            let ghost before = st.hdr@;
            st.hdr.push(line);
            assert(string_views(st.hdr@) =~= string_views(before).push(line@));
        },
        Some(FileType::Inf) => {
            let ghost before = st.inf@;
            st.inf.push(line);
            assert(string_views(st.inf@) =~= string_views(before).push(line@));
        },
        None => {
            return Err(parser_error("encountered file contents line before header in .cff"));
        },
    }
    Ok(())
}

/// The lines joined with `\n` between them.
pub fn join_with_newlines(ls: &Vec<String>) -> (r: String)
    ensures
        r@ == join_lines(string_views(ls@)),
{
    let mut r = String::new();
    let mut i: usize = 0;
    assert(string_views(ls@).take(0) =~= Seq::<Seq<char>>::empty());
    while i < ls.len()
        invariant
            i <= ls@.len(),
            r@ == join_lines(string_views(ls@).take(i as int)),
        decreases ls.len() - i,
    {
        let ghost t = string_views(ls@).take(i + 1);
        assert(t.drop_last() =~= string_views(ls@).take(i as int));
        assert(t.last() == ls@[i as int]@);
        if i > 0 {
            push_char(&mut r, '\n');
        } else {
            assert(t =~= seq![ls@[0]@]);
        }
        push_str(&mut r, ls[i].as_str());
        i = i + 1;
    }
    assert(string_views(ls@).take(ls@.len() as int) =~= string_views(ls@));
    r
}

/// Reads a `.cff` file: each line (as `read_line` gives it, and trimmed) is
/// either a section header `--- file type: <type> [<format>][: <size>] ---`
/// or a line of the open section. A binary `.dat` section is the `<size>`
/// bytes that follow its header line. The text sections come back joined
/// with `\n`.
pub fn load_cff(b: &[u8]) -> (r: Result<CffContents, ComtradeError>)
    ensures
        match r {
            Ok(c) => spec_load_cff(b@) == Ok::<CffContentsView, ErrorView>(c@),
            Err(e) => spec_load_cff(b@) == Err::<CffContentsView, ErrorView>(e@),
        },
{
    let mut st = CffState {
        current_file: None,
        data_format: None,
        data_size: None,
        cfg: Vec::new(),
        dat: Vec::new(),
        dat_bytes: Vec::new(),
        hdr: Vec::new(),
        inf: Vec::new(),
    };
    assert(string_views(st.cfg@) =~= Seq::empty());
    assert(string_views(st.dat@) =~= Seq::empty());
    assert(string_views(st.hdr@) =~= Seq::empty());
    assert(string_views(st.inf@) =~= Seq::empty());
    assert(st@ == cff_start());
    let names: Vec<&str> = vec!["file_type", "data_format", "data_size"];
    assert(names@.map_values(|n: &str| n@) =~= cff_group_names());
    let mut p: usize = 0;
    while p < b.len()
        invariant
            p <= b@.len(),
            names@.len() == 3,
            names@.map_values(|n: &str| n@) == cff_group_names(),
            cff_from(b@, p as int, st@) == cff_from(b@, 0, cff_start()),
        decreases b.len() - p,
    {
        let e = find_line_end(b, p);
        proof {
            lemma_line_end(b@, p as int);
        }
        let mut raw: Vec<u8> = Vec::new();
        append_range(&mut raw, b, p, e);
        assert(raw@ =~= b@.subrange(p as int, e as int));
        let text = match decode_utf8_bytes(raw.as_slice()) {
            Some(t) => t,
            None => {
                return Err(
                    parser_error("I/O error reading .cff file: stream did not contain valid UTF-8"),
                );
            },
        };
        let line = trimmed(text.as_str());
        let caps = regex_captures(
            "(?i)---\\s*file type:\\s*(?P<file_type>[a-z]+)(\\s+(?P<data_format>[a-z0-9]+))?\\s*(:\\s*(?P<data_size>\\d+))?\\s*---$",
            line.as_str(),
            &names,
        );
        match caps {
            None => {
                match read_content_line(&mut st, line) {
                    Ok(_) => {},
                    Err(x) => {
                        return Err(x);
                    },
                }
                p = e;
            },
            Some(caps) => {
                match read_header_line(&mut st, &caps) {
                    Ok(_) => {},
                    Err(x) => {
                        return Err(x);
                    },
                }
                let binary = match (&st.current_file, &st.data_format) {
                    (Some(FileType::Dat), Some(DataFormat::Ascii)) => false,
                    (Some(FileType::Dat), Some(_)) => true,
                    _ => false,
                };
                if binary {
                    let n = match st.data_size {
                        None => {
                            return Err(parser_error("missing size of binary .dat section in .cff"));
                        },
                        Some(n) => n,
                    };
                    if n > b.len() - e {
                        return Err(parser_error("unexpected end of binary .dat section in .cff"));
                    }
                    append_range(&mut st.dat_bytes, b, e, e + n);
                    p = e + n;
                } else {
                    p = e;
                }
            },
        }
    }
    Ok(
        CffContents {
            cfg: join_with_newlines(&st.cfg),
            dat: join_with_newlines(&st.dat),
            dat_bytes: st.dat_bytes,
            hdr: join_with_newlines(&st.hdr),
            inf: join_with_newlines(&st.inf),
        },
    )
}

} // verus!
