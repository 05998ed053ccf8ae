//! Manifest parser: decompresses and decodes one package's file-ownership
//! text into an ordered sequence of file records.
//!
//! The decompressed text holds one candidate record per line, tokenized on
//! spaces.  A token without an equals sign is either a structural directive
//! (a `/set` default line or the `#mtree` header, both skipped) or the file's
//! path, normalized by stripping one leading "current directory" dot.  A
//! token with an equals sign is a key/value pair.  The mode, gid, uid and
//! size values carry forward across lines until a line overrides them; path,
//! hashes, file type, link target and timestamp reset at every line.  A line
//! that yields no path produces no record.

use vstd::prelude::*;

use crate::text::{
    chars_of, spec_parse_u16, spec_parse_u32, spec_parse_usize, spec_parse_time,
    spec_split, spec_trim, split_chars, string_from_chars, str_eq_chars, subvec, trim_chars,
    parse_u16_chars, parse_u32_chars, parse_usize_chars, parse_time_chars, is_prefix,
    starts_with_chars,
};
use crate::{Error, ErrorV};

verus! {

/// The type of an owned file, as the manifest's closed set names it; a line
/// that never sets it leaves it unknown.
#[derive(Debug, Clone, Copy, PartialEq, Eq, Structural)]
pub enum FileType {
    Directory,
    File,
    SymbolicLink,
    Unknown,
}

/// Spec-level image of [`Hashes`].
pub struct HashesV {
    pub md5: Option<Seq<char>>,
    pub sha256: Option<Seq<char>>,
}

/// The content hashes a manifest line records for a file.
#[derive(Debug, Clone, PartialEq, Eq)]
pub struct Hashes {
    pub md5: Option<String>,
    pub sha256: Option<String>,
}

impl View for Hashes {
    type V = HashesV;

    open spec fn view(&self) -> HashesV {
        HashesV { md5: self.md5.deep_view(), sha256: self.sha256.deep_view() }
    }
}

impl DeepView for Hashes {
    type V = HashesV;

    open spec fn deep_view(&self) -> HashesV {
        self.view()
    }
}

/// Spec-level image of [`MTreeEntry`].
pub struct MTreeEntryV {
    pub filepath: Seq<char>,
    pub hashes: HashesV,
    pub mode: u16,
    pub gid: u32,
    pub uid: u32,
    pub time: u64,
    pub filesize: usize,
    pub filetype: FileType,
    pub link: Option<Seq<char>>,
}

/// One file owned by a package: its normalized path, content hashes,
/// permission bits, owning group and user, timestamp, size, type, and, for a
/// symbolic link, the link target.
#[derive(Debug, Clone, PartialEq, Eq)]
pub struct MTreeEntry {
    pub filepath: String,
    pub hashes: Hashes,
    pub mode: u16,
    pub gid: u32,
    pub uid: u32,
    pub time: u64,
    pub filesize: usize,
    pub filetype: FileType,
    pub link: Option<String>,
}

impl View for MTreeEntry {
    type V = MTreeEntryV;

    open spec fn view(&self) -> MTreeEntryV {
        MTreeEntryV {
            filepath: self.filepath@,
            hashes: self.hashes@,
            mode: self.mode,
            gid: self.gid,
            uid: self.uid,
            time: self.time,
            filesize: self.filesize,
            filetype: self.filetype,
            link: self.link.deep_view(),
        }
    }
}

impl DeepView for MTreeEntry {
    type V = MTreeEntryV;

    open spec fn deep_view(&self) -> MTreeEntryV {
        self.view()
    }
}

/// The attributes that carry forward across lines until overridden.
pub struct CarryV {
    pub mode: u16,
    pub gid: u32,
    pub uid: u32,
    pub filesize: usize,
}

/// Before the first line sets them, the carried attributes are all zero.
pub open spec fn carry_init() -> CarryV {
    CarryV { mode: 0, gid: 0, uid: 0, filesize: 0 }
}

/// The attributes reset at the start of every line.
pub struct LineStateV {
    pub filepath: Option<Seq<char>>,
    pub md5: Option<Seq<char>>,
    pub sha256: Option<Seq<char>>,
    pub link: Option<Seq<char>>,
    pub time: u64,
    pub filetype: FileType,
}

/// A fresh line: nothing set, timestamp zero, type unknown.
pub open spec fn line_state_init() -> LineStateV {
    LineStateV { filepath: None, md5: None, sha256: None, link: None, time: 0, filetype: FileType::Unknown }
}

/// A path token normalized to root-relative form: one leading "current
/// directory" dot is stripped.
pub open spec fn normalize_path(p: Seq<char>) -> Seq<char> {
    if p.len() > 0 && p[0] == '.' {
        p.drop_first()
    } else {
        p
    }
}

/// What one token does to the carried and per-line state.  `line` only feeds
/// error reports.
pub open spec fn apply_token(c: CarryV, l: LineStateV, raw: Seq<char>, line: Seq<char>) -> Result<
    (CarryV, LineStateV),
    ErrorV,
> {
    let tok = spec_trim(raw);
    let pieces = spec_split(tok, '=');
    if pieces.len() == 1 {
        if is_prefix("/set"@, tok) || tok == "#mtree"@ || tok.len() == 0 {
            Ok((c, l))
        } else {
            Ok((c, LineStateV { filepath: Some(normalize_path(tok)), ..l }))
        }
    } else {
        let key = spec_trim(pieces[0]);
        let value = spec_trim(pieces[1]);
        if key == "mode"@ {
            match spec_parse_u16(value) {
                Some(m) => Ok((CarryV { mode: m, ..c }, l)),
                None => Err(ErrorV::BadInteger(value)),
            }
        } else if key == "gid"@ {
            match spec_parse_u32(value) {
                Some(g) => Ok((CarryV { gid: g, ..c }, l)),
                None => Err(ErrorV::BadInteger(value)),
            }
        } else if key == "uid"@ {
            match spec_parse_u32(value) {
                Some(u) => Ok((CarryV { uid: u, ..c }, l)),
                None => Err(ErrorV::BadInteger(value)),
            }
        } else if key == "size"@ {
            match spec_parse_usize(value) {
                Some(s) => Ok((CarryV { filesize: s, ..c }, l)),
                None => Err(ErrorV::BadInteger(value)),
            }
        } else if key == "time"@ {
            match spec_parse_time(value) {
                Some(t) => Ok((c, LineStateV { time: t, ..l })),
                None => Err(ErrorV::BadInteger(value)),
            }
        } else if key == "link"@ {
            Ok((c, LineStateV { link: Some(value), ..l }))
        } else if key == "type"@ {
            if value == "file"@ {
                Ok((c, LineStateV { filetype: FileType::File, ..l }))
            } else if value == "dir"@ {
                Ok((c, LineStateV { filetype: FileType::Directory, ..l }))
            } else if value == "link"@ {
                Ok((c, LineStateV { filetype: FileType::SymbolicLink, ..l }))
            } else {
                Err(ErrorV::BadFileType(value, line))
            }
        } else if key.len() >= 6 && key.skip(key.len() - 6) == "digest"@ {
            let prefix = key.take(key.len() - 6);
            if prefix == "md5"@ {
                Ok((c, LineStateV { md5: Some(value), ..l }))
            } else if prefix == "sha256"@ {
                Ok((c, LineStateV { sha256: Some(value), ..l }))
            } else {
                Err(ErrorV::BadHashKind(prefix))
            }
        } else {
            Err(ErrorV::UnknownKey(key, line))
        }
    }
}

/// A line's tokens: the trimmed line split on spaces.  Each token is trimmed
/// again as it is read.
pub open spec fn tokens_of(line: Seq<char>) -> Seq<Seq<char>> {
    spec_split(spec_trim(line), ' ')
}

/// Folds a line's tokens in order; the first faulty token decides the error.
pub open spec fn fold_tokens(
    c: CarryV,
    l: LineStateV,
    toks: Seq<Seq<char>>,
    line: Seq<char>,
) -> Result<(CarryV, LineStateV), ErrorV>
    decreases toks.len(),
{
    if toks.len() == 0 {
        Ok((c, l))
    } else {
        match apply_token(c, l, toks[0], line) {
            Ok((c2, l2)) => fold_tokens(c2, l2, toks.drop_first(), line),
            Err(e) => Err(e),
        }
    }
}

/// The record a finished line yields, if it named a path: per-line values
/// from the line itself, the rest from the carried attributes.
pub open spec fn line_record(c: CarryV, l: LineStateV) -> Option<MTreeEntryV> {
    match l.filepath {
        Some(p) => Some(
            MTreeEntryV {
                filepath: p,
                hashes: HashesV { md5: l.md5, sha256: l.sha256 },
                mode: c.mode,
                gid: c.gid,
                uid: c.uid,
                time: l.time,
                filesize: c.filesize,
                filetype: l.filetype,
                link: l.link,
            },
        ),
        None => None,
    }
}

/// What one line does: fold its tokens from a fresh per-line state, then
/// close the line into a record if it named a path.
pub open spec fn apply_line(c: CarryV, line: Seq<char>) -> Result<
    (CarryV, Option<MTreeEntryV>),
    ErrorV,
> {
    match fold_tokens(c, line_state_init(), tokens_of(line), line) {
        Ok((c2, l2)) => Ok((c2, line_record(c2, l2))),
        Err(e) => Err(e),
    }
}

/// Folds the lines in order, carrying attributes forward and emitting
/// records in line order.
pub open spec fn fold_lines(c: CarryV, ls: Seq<Seq<char>>, acc: Seq<MTreeEntryV>) -> Result<
    Seq<MTreeEntryV>,
    ErrorV,
>
    decreases ls.len(),
{
    if ls.len() == 0 {
        Ok(acc)
    } else {
        match apply_line(c, ls[0]) {
            Ok((c2, rec)) => fold_lines(
                c2,
                ls.drop_first(),
                match rec {
                    Some(r) => acc.push(r),
                    None => acc,
                },
            ),
            Err(e) => Err(e),
        }
    }
}

/// What parsing manifest text yields: the trimmed text's lines folded with
/// zeroed carry-over.
pub open spec fn spec_read_mtree(text: Seq<char>) -> Result<Seq<MTreeEntryV>, ErrorV> {
    fold_lines(carry_init(), spec_split(spec_trim(text), '\n'), Seq::empty())
}

/// The executable twin of [`CarryV`].
struct CarryExec {
    mode: u16,
    gid: u32,
    uid: u32,
    filesize: usize,
}

spec fn carry_view(c: &CarryExec) -> CarryV {
    CarryV { mode: c.mode, gid: c.gid, uid: c.uid, filesize: c.filesize }
}

/// The executable twin of [`LineStateV`].
struct LineExec {
    filepath: Option<String>,
    md5: Option<String>,
    sha256: Option<String>,
    link: Option<String>,
    time: u64,
    filetype: FileType,
}

spec fn line_view(l: &LineExec) -> LineStateV {
    LineStateV {
        filepath: l.filepath.deep_view(),
        md5: l.md5.deep_view(),
        sha256: l.sha256.deep_view(),
        link: l.link.deep_view(),
        time: l.time,
        filetype: l.filetype,
    }
}

/// Decodes decompressed manifest text into file records, in line order, or
/// reports the first fault: a malformed number, a file type or hash kind
/// outside the closed sets, or an unrecognized key.
pub fn read_mtree(mtree: &str) -> (r: Result<Vec<MTreeEntry>, Error>)
    ensures
        match r {
            Ok(v) => spec_read_mtree(mtree@) == Ok::<Seq<MTreeEntryV>, ErrorV>(v.deep_view()),
            Err(e) => spec_read_mtree(mtree@) == Err::<Seq<MTreeEntryV>, ErrorV>(e@),
        },
{
    let cv = chars_of(mtree);
    let trimmed = trim_chars(&cv);
    let lines = split_chars(&trimmed, '\n');
    let ghost lsv = lines.deep_view();
    let mut out: Vec<MTreeEntry> = Vec::new();
    let mut carry = CarryExec { mode: 0, gid: 0, uid: 0, filesize: 0 };
    proof {
        assert(out.deep_view() =~= Seq::<MTreeEntryV>::empty());
        assert(lsv.skip(0) =~= lsv);
    }
    let mut i: usize = 0;
    while i < lines.len()
        invariant
            0 <= i <= lines@.len(),
            lsv == lines.deep_view(),
            lsv.len() == lines@.len(),
            spec_read_mtree(mtree@) == fold_lines(
                carry_view(&carry),
                lsv.skip(i as int),
                out.deep_view(),
            ),
        decreases lines@.len() - i,
    {
        let ghost cline = carry_view(&carry);
        let ghost linev = lsv[i as int];
        let line = &lines[i];
        proof {
            assert(line@ =~= linev);
            assert(lsv.skip(i as int)[0] == linev);
            assert(lsv.skip(i as int).drop_first() =~= lsv.skip(i + 1));
        }
        let ltrim = trim_chars(line);
        let toks = split_chars(&ltrim, ' ');
        let ghost tsv = toks.deep_view();
        proof {
            assert(tsv == tokens_of(linev));
        }
        let mut lstate = LineExec {
            filepath: None,
            md5: None,
            sha256: None,
            link: None,
            time: 0,
            filetype: FileType::Unknown,
        };
        proof {
            assert(line_view(&lstate) == line_state_init());
            assert(tsv.skip(0) =~= tsv);
        }
        let mut j: usize = 0;
        while j < toks.len()
            invariant
                0 <= j <= toks@.len(),
                tsv == toks.deep_view(),
                tsv.len() == toks@.len(),
                tsv == tokens_of(linev),
                line@ == linev,
                0 <= i < lsv.len(),
                lsv.skip(i as int)[0] == linev,
                spec_read_mtree(mtree@) == fold_lines(cline, lsv.skip(i as int), out.deep_view()),
                fold_tokens(cline, line_state_init(), tsv, linev) == fold_tokens(
                    carry_view(&carry),
                    line_view(&lstate),
                    tsv.skip(j as int),
                    linev,
                ),
            decreases toks@.len() - j,
        {
            let ghost cprev = carry_view(&carry);
            let ghost lprev = line_view(&lstate);
            let raw = &toks[j];
            proof {
                assert(raw@ =~= tsv[j as int]);
                assert(tsv.skip(j as int)[0] == tsv[j as int]);
                assert(tsv.skip(j as int).drop_first() =~= tsv.skip(j + 1));
            }
            let tok = trim_chars(raw);
            let pieces = split_chars(&tok, '=');
            proof {
                crate::text::lemma_split_nonempty(tok@, '=');
                assert(pieces.deep_view() == spec_split(spec_trim(tsv[j as int]), '='));
            }
            if pieces.len() == 1 {
                let set_marker = chars_of("/set");
                if starts_with_chars(&tok, &set_marker) || str_eq_chars(&tok, "#mtree") || tok.len()
                    == 0 {
                    // a structural directive or a blank stretch: no effect
                } else {
                    let p = if tok[0] == '.' {
                        subvec(&tok, 1, tok.len())
                    } else {
                        subvec(&tok, 0, tok.len())
                    };
                    proof {
                        assert(p@ =~= normalize_path(tok@));
                    }
                    lstate.filepath = Some(string_from_chars(&p));
                }
            } else {
                proof {
                    assert(pieces.deep_view().len() >= 2);
                    assert(pieces.deep_view()[0] =~= pieces@[0]@);
                    assert(pieces.deep_view()[1] =~= pieces@[1]@);
                }
                let key = trim_chars(&pieces[0]);
                let value = trim_chars(&pieces[1]);
                if str_eq_chars(&key, "mode") {
                    match parse_u16_chars(&value) {
                        Some(m) => {
                            carry.mode = m;
                        },
                        None => {
                            let e = Error::BadInteger(string_from_chars(&value));
                            proof {
                                lemma_mtree_err(cline, lprev, tsv, j as int, linev, lsv, i as int, out.deep_view(), cprev, e@);
                            }
                            return Err(e);
                        },
                    }
                } else if str_eq_chars(&key, "gid") {
                    match parse_u32_chars(&value) {
                        Some(g) => {
                            carry.gid = g;
                        },
                        None => {
                            let e = Error::BadInteger(string_from_chars(&value));
                            proof {
                                lemma_mtree_err(cline, lprev, tsv, j as int, linev, lsv, i as int, out.deep_view(), cprev, e@);
                            }
                            return Err(e);
                        },
                    }
                } else if str_eq_chars(&key, "uid") {
                    match parse_u32_chars(&value) {
                        Some(u) => {
                            carry.uid = u;
                        },
                        None => {
                            let e = Error::BadInteger(string_from_chars(&value));
                            proof {
                                lemma_mtree_err(cline, lprev, tsv, j as int, linev, lsv, i as int, out.deep_view(), cprev, e@);
                            }
                            return Err(e);
                        },
                    }
                } else if str_eq_chars(&key, "size") {
                    match parse_usize_chars(&value) {
                        Some(s) => {
                            carry.filesize = s;
                        },
                        None => {
                            let e = Error::BadInteger(string_from_chars(&value));
                            proof {
                                lemma_mtree_err(cline, lprev, tsv, j as int, linev, lsv, i as int, out.deep_view(), cprev, e@);
                            }
                            return Err(e);
                        },
                    }
                } else if str_eq_chars(&key, "time") {
                    match parse_time_chars(&value) {
                        Some(t) => {
                            lstate.time = t;
                        },
                        None => {
                            let e = Error::BadInteger(string_from_chars(&value));
                            proof {
                                lemma_mtree_err(cline, lprev, tsv, j as int, linev, lsv, i as int, out.deep_view(), cprev, e@);
                            }
                            return Err(e);
                        },
                    }
                } else if str_eq_chars(&key, "link") {
                    lstate.link = Some(string_from_chars(&value));
                } else if str_eq_chars(&key, "type") {
                    if str_eq_chars(&value, "file") {
                        lstate.filetype = FileType::File;
                    } else if str_eq_chars(&value, "dir") {
                        lstate.filetype = FileType::Directory;
                    } else if str_eq_chars(&value, "link") {
                        lstate.filetype = FileType::SymbolicLink;
                    } else {
                        let e = Error::BadFileType(
                            string_from_chars(&value),
                            string_from_chars(line),
                        );
                        proof {
                            lemma_mtree_err(cline, lprev, tsv, j as int, linev, lsv, i as int, out.deep_view(), cprev, e@);
                        }
                        return Err(e);
                    }
                } else if key.len() >= 6 && {
                    let suffix = subvec(&key, key.len() - 6, key.len());
                    str_eq_chars(&suffix, "digest")
                } {
                    let prefix = subvec(&key, 0, key.len() - 6);
                    if str_eq_chars(&prefix, "md5") {
                        lstate.md5 = Some(string_from_chars(&value));
                    } else if str_eq_chars(&prefix, "sha256") {
                        lstate.sha256 = Some(string_from_chars(&value));
                    } else {
                        let e = Error::BadHashKind(string_from_chars(&prefix));
                        proof {
                            lemma_mtree_err(cline, lprev, tsv, j as int, linev, lsv, i as int, out.deep_view(), cprev, e@);
                        }
                        return Err(e);
                    }
                } else {
                    let e = Error::UnknownKey(string_from_chars(&key), string_from_chars(line));
                    proof {
                        lemma_mtree_err(cline, lprev, tsv, j as int, linev, lsv, i as int, out.deep_view(), cprev, e@);
                    }
                    return Err(e);
                }
            }
            proof {
                assert(apply_token(cprev, lprev, tsv[j as int], linev) == Ok::<
                    (CarryV, LineStateV),
                    ErrorV,
                >((carry_view(&carry), line_view(&lstate))));
            }
            j += 1;
        }
        proof {
            assert(tsv.skip(tsv.len() as int) =~= Seq::<Seq<char>>::empty());
        }
        let ghost l2 = line_view(&lstate);
        let ghost c2 = carry_view(&carry);
        proof {
            assert(apply_line(cline, linev) == Ok::<(CarryV, Option<MTreeEntryV>), ErrorV>(
                (c2, line_record(c2, l2)),
            ));
        }
        let LineExec { filepath, md5, sha256, link, time, filetype } = lstate;
        match filepath {
            Some(p) => {
                let e = MTreeEntry {
                    filepath: p,
                    hashes: Hashes { md5, sha256 },
                    mode: carry.mode,
                    gid: carry.gid,
                    uid: carry.uid,
                    time,
                    filesize: carry.filesize,
                    filetype,
                    link,
                };
                let ghost o0 = out.deep_view();
                proof {
                    assert(e@ == line_record(c2, l2)->Some_0);
                }
                out.push(e);
                proof {
                    assert(out.deep_view() =~= o0.push(line_record(c2, l2)->Some_0));
                }
            },
            None => {},
        }
        i += 1;
    }
    proof {
        assert(lsv.skip(lsv.len() as int) =~= Seq::<Seq<char>>::empty());
    }
    Ok(out)
}

/// Chains one faulty token up to the whole manifest: if the token at `j`
/// fails, the manifest read fails with that error.
proof fn lemma_mtree_err(
    cline: CarryV,
    lprev: LineStateV,
    tsv: Seq<Seq<char>>,
    j: int,
    linev: Seq<char>,
    lsv: Seq<Seq<char>>,
    i: int,
    outdv: Seq<MTreeEntryV>,
    cprev: CarryV,
    ev: ErrorV,
)
    requires
        0 <= j < tsv.len(),
        0 <= i < lsv.len(),
        lsv.skip(i)[0] == linev,
        tsv == tokens_of(linev),
        apply_token(cprev, lprev, tsv[j], linev) == Err::<(CarryV, LineStateV), ErrorV>(ev),
        fold_tokens(cline, line_state_init(), tsv, linev) == fold_tokens(
            cprev,
            lprev,
            tsv.skip(j),
            linev,
        ),
    ensures
        fold_lines(cline, lsv.skip(i), outdv) == Err::<Seq<MTreeEntryV>, ErrorV>(ev),
{
    assert(tsv.skip(j)[0] == tsv[j]);
    assert(fold_tokens(cprev, lprev, tsv.skip(j), linev) == Err::<(CarryV, LineStateV), ErrorV>(
        ev,
    ));
    assert(apply_line(cline, linev) == Err::<(CarryV, Option<MTreeEntryV>), ErrorV>(ev));
    assert(lsv.skip(i).len() > 0);
}

/// What decompressing a manifest byte stream yields, when it decodes: the
/// text inside.  The result depends on the bytes alone.
pub uninterp spec fn gunzip_of(b: Seq<u8>) -> Option<Seq<char>>;

/// Relies on flate2's `read::GzDecoder` driven by `Read::read_to_string`: it
/// decodes the single gzip member the bytes hold into text, deterministically
/// in the bytes, and refuses a truncated, corrupt or non-UTF-8 stream.
#[verifier::external_body]
fn gunzip(b: &Vec<u8>) -> (r: Option<String>)
    ensures
        match r {
            Some(s) => gunzip_of(b@) == Some(s@),
            None => gunzip_of(b@) is None,
        },
{
    let mut decoder = flate2::read::GzDecoder::new(b.as_slice());
    let mut text = String::new();
    match std::io::Read::read_to_string(&mut decoder, &mut text) {
        Ok(_) => Some(text),
        Err(_) => None,
    }
}

/// What reading a compressed manifest yields: the stream decompressed in
/// full, then decoded line by line.
pub open spec fn spec_read_mtree_bytes(b: Seq<u8>) -> Result<Seq<MTreeEntryV>, ErrorV> {
    match gunzip_of(b) {
        Some(text) => spec_read_mtree(text),
        None => Err(ErrorV::Decode),
    }
}

/// Decompresses and decodes one package's manifest: the whole stream must
/// decompress to text, and every line must decode.
pub fn read_mtree_from_bytes(b: &Vec<u8>) -> (r: Result<Vec<MTreeEntry>, Error>)
    ensures
        match r {
            Ok(v) => spec_read_mtree_bytes(b@) == Ok::<Seq<MTreeEntryV>, ErrorV>(v.deep_view()),
            Err(e) => spec_read_mtree_bytes(b@) == Err::<Seq<MTreeEntryV>, ErrorV>(e@),
        },
{
    match gunzip(b) {
        Some(text) => read_mtree(text.as_str()),
        None => Err(Error::Decode),
    }
}

/// Normalization law: a path with a leading "current directory" dot
/// normalizes to the same path as its dotless form.
pub proof fn lemma_normalize_dot(p: Seq<char>)
    requires
        p.len() == 0 || p[0] != '.',
    ensures
        normalize_path(seq!['.'] + p) == normalize_path(p),
{
    assert((seq!['.'] + p).drop_first() =~= p);
}

} // verus!
