//! Descriptor parser: decodes one package's metadata text block into a
//! structured record.
//!
//! A descriptor is a sequence of blocks.  Each block is introduced by a
//! `%LABEL%` marker on its own line and carries the non-empty lines that
//! follow it, up to the next label line, an empty line, or the end of the
//! text.  Each recognized label sets exactly one field of the record; a later
//! block with the same label wins.  A label without any value lines sets
//! nothing.

use vstd::prelude::*;

use crate::text::{
    chars_of, find_char, first_index_of, is_digit, parse_u64_chars, parse_u8_chars, push_all,
    spec_parse_u64, spec_parse_u8, spec_split, spec_trim, split_chars, string_from_chars,
    str_eq_chars, subvec, trim_chars,
};
use crate::{Error, ErrorV};

verus! {

/// Target build classifier of a package: universal, or one concrete CPU
/// architecture.
#[derive(Debug, Clone, Copy, PartialEq, Eq, Structural)]
pub enum Arch {
    Any,
    X86_64,
}

/// How a package's authenticity is meant to be checked: not at all, or by a
/// PGP signature.
#[derive(Debug, Clone, Copy, PartialEq, Eq, Structural)]
pub enum Validation {
    NoSignature,
    Pgp,
}

/// Spec-level image of [`Packager`].
pub struct PackagerV {
    pub name: Seq<char>,
    pub email: Option<Seq<char>>,
}

/// Who built a package: a display name and, when one could be extracted from
/// the start of the value, an email address.
#[derive(Debug, Clone, PartialEq, Eq)]
pub struct Packager {
    pub name: String,
    pub email: Option<String>,
}

impl View for Packager {
    type V = PackagerV;

    open spec fn view(&self) -> PackagerV {
        PackagerV { name: self.name@, email: self.email.deep_view() }
    }
}

impl DeepView for Packager {
    type V = PackagerV;

    open spec fn deep_view(&self) -> PackagerV {
        self.view()
    }
}

/// Spec-level image of [`OptionalDependency`].
pub struct OptionalDependencyV {
    pub package: Seq<char>,
    pub reason: Option<Seq<char>>,
}

/// One entry of the OPTDEPENDS list: a package name and, when the line held
/// a colon, the free-text reason after it.
#[derive(Debug, Clone, PartialEq, Eq)]
pub struct OptionalDependency {
    pub package: String,
    pub reason: Option<String>,
}

impl View for OptionalDependency {
    type V = OptionalDependencyV;

    open spec fn view(&self) -> OptionalDependencyV {
        OptionalDependencyV { package: self.package@, reason: self.reason.deep_view() }
    }
}

impl DeepView for OptionalDependency {
    type V = OptionalDependencyV;

    open spec fn deep_view(&self) -> OptionalDependencyV {
        self.view()
    }
}

/// Spec-level image of [`PackageDescription`].
pub struct PackageDescriptionV {
    pub name: Seq<char>,
    pub version: Seq<char>,
    pub pkgbase: Option<Seq<char>>,
    pub description: Option<Seq<char>>,
    pub url: Option<Seq<char>>,
    pub arch: Option<Arch>,
    pub build_date: Option<u64>,
    pub install_date: Option<u64>,
    pub packager: Option<PackagerV>,
    pub size: Option<u64>,
    pub reason: Option<u8>,
    pub licences: Seq<Seq<char>>,
    pub validation: Option<Validation>,
    pub replaces: Seq<Seq<char>>,
    pub dependencies: Seq<Seq<char>>,
    pub optional_dependencies: Seq<OptionalDependencyV>,
    pub provides: Seq<Seq<char>>,
    pub groups: Seq<Seq<char>>,
    pub conflicts: Seq<Seq<char>>,
}

/// One package's metadata, as decoded from its descriptor text.  Name and
/// version are mandatory; every list field defaults to empty rather than
/// absent.
#[derive(Debug, Clone, PartialEq, Eq)]
pub struct PackageDescription {
    pub name: String,
    pub version: String,
    pub pkgbase: Option<String>,
    pub description: Option<String>,
    pub url: Option<String>,
    pub arch: Option<Arch>,
    pub build_date: Option<u64>,
    pub install_date: Option<u64>,
    pub packager: Option<Packager>,
    pub size: Option<u64>,
    pub reason: Option<u8>,
    pub licences: Vec<String>,
    pub validation: Option<Validation>,
    pub replaces: Vec<String>,
    pub dependencies: Vec<String>,
    pub optional_dependencies: Vec<OptionalDependency>,
    pub provides: Vec<String>,
    pub groups: Vec<String>,
    pub conflicts: Vec<String>,
}

impl View for PackageDescription {
    type V = PackageDescriptionV;

    open spec fn view(&self) -> PackageDescriptionV {
        PackageDescriptionV {
            name: self.name@,
            version: self.version@,
            pkgbase: self.pkgbase.deep_view(),
            description: self.description.deep_view(),
            url: self.url.deep_view(),
            arch: self.arch,
            build_date: self.build_date,
            install_date: self.install_date,
            packager: self.packager.deep_view(),
            size: self.size,
            reason: self.reason,
            licences: self.licences.deep_view(),
            validation: self.validation,
            replaces: self.replaces.deep_view(),
            dependencies: self.dependencies.deep_view(),
            optional_dependencies: self.optional_dependencies.deep_view(),
            provides: self.provides.deep_view(),
            groups: self.groups.deep_view(),
            conflicts: self.conflicts.deep_view(),
        }
    }
}

impl DeepView for PackageDescription {
    type V = PackageDescriptionV;

    open spec fn deep_view(&self) -> PackageDescriptionV {
        self.view()
    }
}

/// A word character, as labels are made of: a letter, a digit, or an
/// underscore.
pub open spec fn is_word_char(c: char) -> bool {
    is_digit(c) || (65 <= c as u32 <= 90) || (97 <= c as u32 <= 122) || c == '_'
}

/// A line that introduces a block: `%LABEL%` with a non-empty word between
/// the two percent signs.
pub open spec fn is_label_line(l: Seq<char>) -> bool {
    l.len() >= 3 && l[0] == '%' && l.last() == '%' && (forall|i: int|
        1 <= i < l.len() - 1 ==> is_word_char(#[trigger] l[i]))
}

/// The label a label line carries.
pub open spec fn label_of(l: Seq<char>) -> Seq<char> {
    l.subrange(1, l.len() - 1)
}

/// Executable twin of [`is_label_line`].
fn is_label_line_chars(l: &Vec<char>) -> (r: bool)
    ensures
        r == is_label_line(l@),
{
    if l.len() < 3 {
        return false;
    }
    if l[0] != '%' || l[l.len() - 1] != '%' {
        return false;
    }
    let mut i: usize = 1;
    while i < l.len() - 1
        invariant
            1 <= i <= l@.len() - 1,
            l@.len() >= 3,
            forall|k: int| 1 <= k < i ==> is_word_char(#[trigger] l@[k]),
        decreases l@.len() - i,
    {
        let u = l[i] as u32;
        if !(48 <= u && u <= 57) && !(65 <= u && u <= 90) && !(97 <= u && u <= 122) && l[i] != '_' {
            return false;
        }
        i += 1;
    }
    true
}

/// A block: its label and its value lines.
pub type BlockV = (Seq<char>, Seq<Seq<char>>);

/// An open block closes into one emitted block only if it gathered at least
/// one value line.
pub open spec fn flush_block(open: Option<BlockV>) -> Seq<BlockV> {
    match open {
        Some((lab, vs)) => if vs.len() > 0 {
            seq![(lab, vs)]
        } else {
            Seq::empty()
        },
        None => Seq::empty(),
    }
}

/// Walks the lines with the currently open block: a label line closes the
/// open block and opens a new one; an empty line closes it; any other line
/// joins it as a value, or is skipped when no block is open.
pub open spec fn blocks_rec(lines: Seq<Seq<char>>, open: Option<BlockV>) -> Seq<BlockV>
    decreases lines.len(),
{
    if lines.len() == 0 {
        flush_block(open)
    } else {
        let l = lines[0];
        if is_label_line(l) {
            flush_block(open) + blocks_rec(
                lines.drop_first(),
                Some((label_of(l), Seq::empty())),
            )
        } else if l.len() == 0 {
            flush_block(open) + blocks_rec(lines.drop_first(), None)
        } else {
            match open {
                Some((lab, vs)) => blocks_rec(lines.drop_first(), Some((lab, vs.push(l)))),
                None => blocks_rec(lines.drop_first(), None),
            }
        }
    }
}

/// The blocks of a descriptor's lines.
pub open spec fn spec_blocks(lines: Seq<Seq<char>>) -> Seq<BlockV> {
    blocks_rec(lines, None)
}

/// A block under construction: its label and its value lines so far.
type BlockExec = (Vec<char>, Vec<Vec<char>>);

spec fn open_view(open: &Option<BlockExec>) -> Option<BlockV> {
    match open {
        Some(b) => Some(b.deep_view()),
        None => None,
    }
}

/// Segments a descriptor's lines into labeled blocks.
fn make_blocks(lines: &Vec<Vec<char>>) -> (r: Vec<BlockExec>)
    ensures
        r.deep_view() == spec_blocks(lines.deep_view()),
{
    let mut done: Vec<BlockExec> = Vec::new();
    let mut open: Option<BlockExec> = None;
    let mut i: usize = 0;
    proof {
        assert(done.deep_view() =~= Seq::<BlockV>::empty());
        assert(lines.deep_view().skip(0) =~= lines.deep_view());
        assert(spec_blocks(lines.deep_view()) =~= Seq::<BlockV>::empty() + blocks_rec(
            lines.deep_view(),
            open_view(&open),
        ));
    }
    while i < lines.len()
        invariant
            0 <= i <= lines@.len(),
            lines.deep_view().len() == lines@.len(),
            spec_blocks(lines.deep_view()) == done.deep_view() + blocks_rec(
                lines.deep_view().skip(i as int),
                open_view(&open),
            ),
        decreases lines@.len() - i,
    {
        let ghost rest = lines.deep_view().skip(i as int);
        let ghost l = lines.deep_view()[i as int];
        proof {
            assert(rest[0] == l);
            assert(rest.drop_first() =~= lines.deep_view().skip(i + 1));
        }
        let line = &lines[i];
        proof {
            assert(line@ == l);
        }
        if is_label_line_chars(line) {
            flush_exec(&mut done, open);
            let lab = subvec(line, 1, line.len() - 1);
            proof {
                assert(lab@ =~= label_of(l));
            }
            let fresh: Vec<Vec<char>> = Vec::new();
            proof {
                assert(fresh.deep_view() =~= Seq::<Seq<char>>::empty());
            }
            open = Some((lab, fresh));
            proof {
                assert(open_view(&open) == Some((label_of(l), Seq::<Seq<char>>::empty())));
            }
        } else if line.len() == 0 {
            flush_exec(&mut done, open);
            open = None;
        } else {
            match &mut open {
                Some(b) => {
                    let ghost vs0 = b.1.deep_view();
                    let v = copy_chars(line);
                    b.1.push(v);
                    proof {
                        assert(b.1.deep_view() =~= vs0.push(l));
                    }
                },
                None => {},
            }
        }
        i += 1;
    }
    proof {
        assert(lines.deep_view().skip(lines@.len() as int) =~= Seq::<Seq<char>>::empty());
    }
    flush_exec(&mut done, open);
    proof {
        assert(done.deep_view() =~= spec_blocks(lines.deep_view()));
    }
    done
}

/// Copies a line.
fn copy_chars(s: &Vec<char>) -> (r: Vec<char>)
    ensures
        r@ == s@,
{
    subvec(s, 0, s.len())
}

/// Closes an open block into the output.
fn flush_exec(done: &mut Vec<BlockExec>, open: Option<BlockExec>)
    ensures
        final(done).deep_view() == old(done).deep_view() + flush_block(open_view(&open)),
{
    let ghost d0 = done.deep_view();
    match open {
        Some(b) => {
            if b.1.len() > 0 {
                let ghost bv = b.deep_view();
                done.push(b);
                proof {
                    assert(done.deep_view() =~= d0 + seq![bv]);
                }
            } else {
                proof {
                    assert(done.deep_view() =~= d0 + Seq::<BlockV>::empty());
                }
            }
        },
        None => {
            proof {
                assert(done.deep_view() =~= d0 + Seq::<BlockV>::empty());
            }
        },
    }
}

/// A character the local part of an email address may hold, dots aside:
/// lower-case letters, digits, underscore and plus.
pub open spec fn is_local_char(c: char) -> bool {
    (97 <= c as u32 <= 122) || is_digit(c) || c == '_' || c == '+'
}

/// A plausible local part: non-empty, local characters throughout, with
/// interior dots allowed but none at either edge.
pub open spec fn valid_local(s: Seq<char>) -> bool {
    s.len() >= 1 && is_local_char(s[0]) && is_local_char(s.last()) && (forall|i: int|
        0 < i < s.len() - 1 ==> (is_local_char(#[trigger] s[i]) || s[i] == '.'))
}

/// A lower-case letter.
pub open spec fn is_lower(c: char) -> bool {
    97 <= c as u32 <= 122
}

/// A character a domain label is made of.
pub open spec fn is_dom_alnum(c: char) -> bool {
    is_lower(c) || is_digit(c)
}

/// A separator between domain labels.
pub open spec fn is_dom_sep(c: char) -> bool {
    c == '.' || c == '-'
}

/// The index of the last label separator in `s`, or `-1` if there is none.
pub open spec fn last_sep_index(s: Seq<char>) -> int
    decreases s.len(),
{
    if s.len() == 0 {
        -1
    } else if is_dom_sep(s.last()) {
        s.len() - 1
    } else {
        last_sep_index(s.drop_last())
    }
}

pub proof fn lemma_last_sep_index(s: Seq<char>)
    ensures
        -1 <= last_sep_index(s) < s.len(),
        last_sep_index(s) >= 0 ==> is_dom_sep(s[last_sep_index(s)]),
        forall|i: int| last_sep_index(s) < i < s.len() ==> !is_dom_sep(s[i]),
    decreases s.len(),
{
    if s.len() > 0 && !is_dom_sep(s.last()) {
        lemma_last_sep_index(s.drop_last());
        assert forall|i: int| last_sep_index(s) < i < s.len() implies !is_dom_sep(s[i]) by {
            if i < s.len() - 1 {
                assert(s.drop_last()[i] == s[i]);
            }
        }
    }
}

/// A plausible domain: alphanumeric labels separated by single dots or
/// dashes, starting alphanumeric, and ending in a dot followed by a top label
/// of two to six lower-case letters.
pub open spec fn valid_domain(s: Seq<char>) -> bool {
    let k = last_sep_index(s);
    &&& s.len() >= 1
    &&& is_dom_alnum(s[0])
    &&& forall|i: int| 0 <= i < s.len() ==> (is_dom_alnum(#[trigger] s[i]) || is_dom_sep(s[i]))
    &&& forall|i: int| 0 <= i < s.len() - 1 ==> !(is_dom_sep(#[trigger] s[i]) && is_dom_sep(
        s[i + 1],
    ))
    &&& k >= 0
    &&& s[k] == '.'
    &&& 2 <= s.len() - k - 1 <= 6
    &&& forall|i: int| k < i < s.len() ==> is_lower(#[trigger] s[i])
}

/// Executable twin of [`is_dom_sep`].
fn dom_sep(c: char) -> (r: bool)
    ensures
        r == is_dom_sep(c),
{
    c == '.' || c == '-'
}

/// Executable twin of [`is_dom_alnum`].
fn dom_alnum(c: char) -> (r: bool)
    ensures
        r == is_dom_alnum(c),
{
    let u = c as u32;
    (97 <= u && u <= 122) || (48 <= u && u <= 57)
}

/// Executable twin of [`valid_domain`].
fn valid_domain_chars(s: &Vec<char>) -> (r: bool)
    ensures
        r == valid_domain(s@),
{
    let n = s.len();
    if n == 0 {
        return false;
    }
    if !dom_alnum(s[0]) {
        return false;
    }
    let mut i: usize = 0;
    while i < n
        invariant
            0 <= i <= n == s@.len(),
            forall|k: int| 0 <= k < i ==> (is_dom_alnum(#[trigger] s@[k]) || is_dom_sep(s@[k])),
            forall|k: int| 0 <= k < i && k + 1 < n ==> !(is_dom_sep(#[trigger] s@[k])
                && is_dom_sep(s@[k + 1])),
        decreases n - i,
    {
        let c = s[i];
        if !dom_alnum(c) && !dom_sep(c) {
            return false;
        }
        if i + 1 < n && dom_sep(c) && dom_sep(s[i + 1]) {
            return false;
        }
        i += 1;
    }
    let mut j: usize = n;
    let mut found = false;
    while !found && j > 0
        invariant
            0 <= j <= n == s@.len(),
            found ==> j < n && is_dom_sep(s@[j as int]),
            found ==> forall|k: int| j < k < n ==> !is_dom_sep(s@[k]),
            !found ==> forall|k: int| j <= k < n ==> !is_dom_sep(s@[k]),
        decreases j + (if found {
            0int
        } else {
            1int
        }),
    {
        j -= 1;
        if dom_sep(s[j]) {
            found = true;
        }
    }
    proof {
        lemma_last_sep_index(s@);
    }
    if !found {
        proof {
            if last_sep_index(s@) >= 0 {
                assert(!is_dom_sep(s@[last_sep_index(s@)]));
            }
        }
        return false;
    }
    let k = j;
    proof {
        let lsi = last_sep_index(s@);
        if lsi < k as int {
            assert(!is_dom_sep(s@[k as int]));
        }
        if lsi > k as int {
            assert(!is_dom_sep(s@[lsi]));
        }
        assert(k as int == lsi);
    }
    if s[k] != '.' {
        return false;
    }
    let tld = n - k - 1;
    if tld < 2 || tld > 6 {
        return false;
    }
    let mut i2: usize = k + 1;
    while i2 < n
        invariant
            k + 1 <= i2 <= n == s@.len(),
            k < n,
            k as int == last_sep_index(s@),
            forall|m: int| k < m < i2 ==> is_lower(#[trigger] s@[m]),
        decreases n - i2,
    {
        let u = s[i2] as u32;
        if !(97 <= u && u <= 122) {
            proof {
                assert(!is_lower(s@[i2 as int]));
            }
            return false;
        }
        i2 += 1;
    }
    true
}

/// Executable twin of [`valid_local`].
fn valid_local_chars(s: &Vec<char>) -> (r: bool)
    ensures
        r == valid_local(s@),
{
    let n = s.len();
    if n == 0 {
        return false;
    }
    let u0 = s[0] as u32;
    if !((97 <= u0 && u0 <= 122) || (48 <= u0 && u0 <= 57) || s[0] == '_' || s[0] == '+') {
        return false;
    }
    let ul = s[n - 1] as u32;
    if !((97 <= ul && ul <= 122) || (48 <= ul && ul <= 57) || s[n - 1] == '_' || s[n - 1] == '+') {
        return false;
    }
    let mut i: usize = 1;
    while i < n - 1
        invariant
            1 <= i <= n == s@.len(),
            n >= 1,
            forall|k: int| 0 < k < i ==> (is_local_char(#[trigger] s@[k]) || s@[k] == '.'),
        decreases n - i,
    {
        let u = s[i] as u32;
        if !((97 <= u && u <= 122) || (48 <= u && u <= 57) || s[i] == '_' || s[i] == '+' || s[i]
            == '.') {
            return false;
        }
        i += 1;
    }
    true
}

/// A plausible email address: a local part, an at sign, and a domain.
pub open spec fn valid_email(s: Seq<char>) -> bool {
    exists|i: int|
        0 <= i < s.len() && #[trigger] s[i] == '@' && valid_local(s.take(i)) && valid_domain(
            s.skip(i + 1),
        )
}

/// Executable twin of [`valid_email`]: the witness can only be the first at
/// sign, since a local part holds none.
fn valid_email_chars(s: &Vec<char>) -> (r: bool)
    ensures
        r == valid_email(s@),
{
    let j = find_char(s, '@');
    proof {
        crate::text::lemma_first_index_of(s@, '@');
    }
    if j == s.len() {
        return false;
    }
    let local = subvec(s, 0, j);
    let dom = subvec(s, j + 1, s.len());
    proof {
        assert(local@ =~= s@.take(j as int));
        assert(dom@ =~= s@.skip(j + 1));
    }
    let ok = valid_local_chars(&local) && valid_domain_chars(&dom);
    if ok {
        proof {
            assert(s@[j as int] == '@' && valid_local(s@.take(j as int)) && valid_domain(
                s@.skip(j + 1),
            ));
        }
        true
    } else {
        proof {
            assert(!is_local_char('@'));
            assert forall|i: int|
                0 <= i < s@.len() && #[trigger] s@[i] == '@' implies !(valid_local(s@.take(i))
                && valid_domain(s@.skip(i + 1))) by {
                if i != j as int && valid_local(s@.take(i)) {
                    assert(s@[j as int] == '@');
                    assert(j < i);
                    let t = s@.take(i);
                    assert(t[j as int] == '@');
                    if j == 0 {
                        assert(is_local_char(t[0]));
                    } else if j as int == i - 1 {
                        assert(is_local_char(t.last()));
                    } else {
                        assert(is_local_char(t[j as int]) || t[j as int] == '.');
                    }
                    assert(false);
                }
            }
        }
        false
    }
}

pub open spec fn email_prefix_upto(s: Seq<char>, n: int) -> Option<Seq<char>>
    decreases n,
{
    if n <= 0 {
        None
    } else if valid_email(s.take(n)) {
        Some(s.take(n))
    } else {
        email_prefix_upto(s, n - 1)
    }
}

/// The longest prefix of `s` that is a plausible email address, if any.
pub open spec fn spec_email_prefix(s: Seq<char>) -> Option<Seq<char>> {
    email_prefix_upto(s, s.len() as int)
}

/// Extracts the longest plausible email address standing at the start of the
/// value, if any.
fn email_prefix_chars(s: &Vec<char>) -> (r: Option<Vec<char>>)
    ensures
        match r {
            Some(v) => spec_email_prefix(s@) == Some(v@),
            None => spec_email_prefix(s@) is None,
        },
{
    let mut n = s.len();
    while n > 0
        invariant
            0 <= n <= s@.len(),
            email_prefix_upto(s@, s@.len() as int) == email_prefix_upto(s@, n as int),
        decreases n,
    {
        let p = subvec(s, 0, n);
        proof {
            assert(p@ =~= s@.take(n as int));
        }
        if valid_email_chars(&p) {
            return Some(p);
        }
        n -= 1;
    }
    None
}

/// The value lines joined with newlines, as the block's raw text reads.
pub open spec fn spec_join_nl(vs: Seq<Seq<char>>) -> Seq<char>
    decreases vs.len(),
{
    if vs.len() == 0 {
        Seq::empty()
    } else if vs.len() == 1 {
        vs[0]
    } else {
        spec_join_nl(vs.drop_last()) + seq!['\n'] + vs.last()
    }
}

/// A scalar field's value: the block's lines joined, then trimmed.
pub open spec fn scalar_of(vs: Seq<Seq<char>>) -> Seq<char> {
    spec_trim(spec_join_nl(vs))
}

/// A list field's elements: one per value line, trimmed.
pub open spec fn list_of(vs: Seq<Seq<char>>) -> Seq<Seq<char>> {
    vs.map_values(|v: Seq<char>| spec_trim(v))
}

/// One OPTDEPENDS line: the package name stands before the first colon; what
/// follows it, if anything, is the free-text reason.
pub open spec fn optdep_of(line: Seq<char>) -> OptionalDependencyV {
    let i = first_index_of(line, ':');
    if i == line.len() {
        OptionalDependencyV { package: spec_trim(line), reason: None }
    } else {
        OptionalDependencyV {
            package: spec_trim(line.take(i)),
            reason: Some(spec_trim(line.skip(i + 1))),
        }
    }
}

/// The OPTDEPENDS entries: one per value line.
pub open spec fn optdeps_of(vs: Seq<Seq<char>>) -> Seq<OptionalDependencyV> {
    vs.map_values(|v: Seq<char>| optdep_of(v))
}

/// The closed architecture set.
pub open spec fn arch_of(t: Seq<char>) -> Option<Arch> {
    if t == "any"@ {
        Some(Arch::Any)
    } else if t == "x86_64"@ {
        Some(Arch::X86_64)
    } else {
        None
    }
}

/// The closed validation-method set.
pub open spec fn validation_of(t: Seq<char>) -> Option<Validation> {
    if t == "pgp"@ {
        Some(Validation::Pgp)
    } else if t == "none"@ {
        Some(Validation::NoSignature)
    } else {
        None
    }
}

/// The no-packager sentinel; the stores in the wild spell it both ways, so
/// both spellings count.
pub open spec fn is_packager_sentinel(t: Seq<char>) -> bool {
    t == "Unknown pacakger"@ || t == "Unknown packager"@
}

/// The PACKAGER field: the sentinel means absent; otherwise the text before
/// the first angle bracket, trimmed, is the display name, and a plausible
/// email standing at the start of the value is attached.
pub open spec fn packager_of(t: Seq<char>) -> Option<PackagerV> {
    if is_packager_sentinel(t) {
        None
    } else {
        Some(
            PackagerV {
                name: spec_trim(t.take(first_index_of(t, '<'))),
                email: spec_email_prefix(t),
            },
        )
    }
}

/// The fields gathered so far while folding a descriptor's blocks: each
/// starts unset and the last block bearing its label decides it.
pub struct DescAcc {
    pub name: Option<Seq<char>>,
    pub version: Option<Seq<char>>,
    pub pkgbase: Option<Seq<char>>,
    pub description: Option<Seq<char>>,
    pub url: Option<Seq<char>>,
    pub arch: Option<Arch>,
    pub build_date: Option<u64>,
    pub install_date: Option<u64>,
    pub packager: Option<PackagerV>,
    pub size: Option<u64>,
    pub reason: Option<u8>,
    pub licences: Option<Seq<Seq<char>>>,
    pub validation: Option<Validation>,
    pub replaces: Option<Seq<Seq<char>>>,
    pub dependencies: Option<Seq<Seq<char>>>,
    pub optional_dependencies: Option<Seq<OptionalDependencyV>>,
    pub provides: Option<Seq<Seq<char>>>,
    pub groups: Option<Seq<Seq<char>>>,
    pub conflicts: Option<Seq<Seq<char>>>,
}

/// No field set yet.
pub open spec fn acc_init() -> DescAcc {
    DescAcc {
        name: None,
        version: None,
        pkgbase: None,
        description: None,
        url: None,
        arch: None,
        build_date: None,
        install_date: None,
        packager: None,
        size: None,
        reason: None,
        licences: None,
        validation: None,
        replaces: None,
        dependencies: None,
        optional_dependencies: None,
        provides: None,
        groups: None,
        conflicts: None,
    }
}

/// What one block does to the record: each recognized label updates exactly
/// one field; BUILDDATE, INSTALLDATE, SIZE and REASON degrade to absent on an
/// unparsable number; ARCH and VALIDATION reject values outside their closed
/// sets; an unrecognized label is a fault reported with the name parsed so
/// far.
pub open spec fn apply_block(acc: DescAcc, lab: Seq<char>, vs: Seq<Seq<char>>) -> Result<
    DescAcc,
    ErrorV,
> {
    if lab == "NAME"@ {
        Ok(DescAcc { name: Some(scalar_of(vs)), ..acc })
    } else if lab == "VERSION"@ {
        Ok(DescAcc { version: Some(scalar_of(vs)), ..acc })
    } else if lab == "BASE"@ {
        Ok(DescAcc { pkgbase: Some(scalar_of(vs)), ..acc })
    } else if lab == "DESC"@ {
        Ok(DescAcc { description: Some(scalar_of(vs)), ..acc })
    } else if lab == "URL"@ {
        Ok(DescAcc { url: Some(scalar_of(vs)), ..acc })
    } else if lab == "ARCH"@ {
        match arch_of(scalar_of(vs)) {
            Some(a) => Ok(DescAcc { arch: Some(a), ..acc }),
            None => Err(ErrorV::BadArchitecture(scalar_of(vs))),
        }
    } else if lab == "BUILDDATE"@ {
        Ok(DescAcc { build_date: spec_parse_u64(scalar_of(vs)), ..acc })
    } else if lab == "INSTALLDATE"@ {
        Ok(DescAcc { install_date: spec_parse_u64(scalar_of(vs)), ..acc })
    } else if lab == "PACKAGER"@ {
        Ok(DescAcc { packager: packager_of(scalar_of(vs)), ..acc })
    } else if lab == "SIZE"@ {
        Ok(DescAcc { size: spec_parse_u64(scalar_of(vs)), ..acc })
    } else if lab == "REASON"@ {
        Ok(DescAcc { reason: spec_parse_u8(scalar_of(vs)), ..acc })
    } else if lab == "LICENSE"@ {
        Ok(DescAcc { licences: Some(list_of(vs)), ..acc })
    } else if lab == "VALIDATION"@ {
        match validation_of(scalar_of(vs)) {
            Some(v) => Ok(DescAcc { validation: Some(v), ..acc }),
            None => Err(ErrorV::BadValidation(scalar_of(vs))),
        }
    } else if lab == "REPLACES"@ {
        Ok(DescAcc { replaces: Some(list_of(vs)), ..acc })
    } else if lab == "DEPENDS"@ {
        Ok(DescAcc { dependencies: Some(list_of(vs)), ..acc })
    } else if lab == "OPTDEPENDS"@ {
        Ok(DescAcc { optional_dependencies: Some(optdeps_of(vs)), ..acc })
    } else if lab == "PROVIDES"@ {
        Ok(DescAcc { provides: Some(list_of(vs)), ..acc })
    } else if lab == "GROUPS"@ {
        Ok(DescAcc { groups: Some(list_of(vs)), ..acc })
    } else if lab == "CONFLICTS"@ {
        Ok(DescAcc { conflicts: Some(list_of(vs)), ..acc })
    } else {
        Err(
            ErrorV::UnknownSection(
                lab,
                match acc.name {
                    Some(n) => n,
                    None => "<name not found>"@,
                },
            ),
        )
    }
}

/// Folds the blocks in order; the first faulty block decides the error.
pub open spec fn fold_blocks(blocks: Seq<BlockV>, acc: DescAcc) -> Result<DescAcc, ErrorV>
    decreases blocks.len(),
{
    if blocks.len() == 0 {
        Ok(acc)
    } else {
        match apply_block(acc, blocks[0].0, blocks[0].1) {
            Ok(a) => fold_blocks(blocks.drop_first(), a),
            Err(e) => Err(e),
        }
    }
}

/// An unset list field defaults to empty.
pub open spec fn or_empty(x: Option<Seq<Seq<char>>>) -> Seq<Seq<char>> {
    match x {
        Some(v) => v,
        None => Seq::empty(),
    }
}

/// Closes the fold: name and version are owed, every other field keeps its
/// gathered value, and unset lists default to empty.
pub open spec fn finish_desc(acc: DescAcc) -> Result<PackageDescriptionV, ErrorV> {
    match acc.name {
        None => Err(ErrorV::MissingName),
        Some(n) => match acc.version {
            None => Err(ErrorV::MissingVersion),
            Some(v) => Ok(
                PackageDescriptionV {
                    name: n,
                    version: v,
                    pkgbase: acc.pkgbase,
                    description: acc.description,
                    url: acc.url,
                    arch: acc.arch,
                    build_date: acc.build_date,
                    install_date: acc.install_date,
                    packager: acc.packager,
                    size: acc.size,
                    reason: acc.reason,
                    licences: or_empty(acc.licences),
                    validation: acc.validation,
                    replaces: or_empty(acc.replaces),
                    dependencies: or_empty(acc.dependencies),
                    optional_dependencies: match acc.optional_dependencies {
                        Some(x) => x,
                        None => Seq::empty(),
                    },
                    provides: or_empty(acc.provides),
                    groups: or_empty(acc.groups),
                    conflicts: or_empty(acc.conflicts),
                },
            ),
        },
    }
}

/// What parsing a descriptor yields: its lines, segmented into blocks,
/// folded into a record.
pub open spec fn spec_parse_desc(text: Seq<char>) -> Result<PackageDescriptionV, ErrorV> {
    match fold_blocks(spec_blocks(spec_split(text, '\n')), acc_init()) {
        Ok(acc) => finish_desc(acc),
        Err(e) => Err(e),
    }
}

/// Joins value lines with newlines.
fn join_nl(vs: &Vec<Vec<char>>) -> (r: Vec<char>)
    ensures
        r@ == spec_join_nl(vs.deep_view()),
{
    let ghost dv = vs.deep_view();
    let mut r: Vec<char> = Vec::new();
    let mut i: usize = 0;
    proof {
        assert(r@ =~= spec_join_nl(dv.take(0)));
    }
    while i < vs.len()
        invariant
            0 <= i <= vs@.len(),
            dv == vs.deep_view(),
            dv.len() == vs@.len(),
            r@ == spec_join_nl(dv.take(i as int)),
        decreases vs@.len() - i,
    {
        let ghost r0 = r@;
        if i > 0 {
            r.push('\n');
        }
        push_all(&mut r, &vs[i]);
        proof {
            let t = dv.take(i + 1);
            assert(t.drop_last() =~= dv.take(i as int));
            assert(t.last() == dv[i as int]);
            if i == 0 {
                assert(r@ =~= dv[0]);
                assert(spec_join_nl(t) == t[0]);
            } else {
                assert(r@ =~= spec_join_nl(dv.take(i as int)) + seq!['\n'] + dv[i as int]);
            }
        }
        i += 1;
    }
    proof {
        assert(dv.take(dv.len() as int) =~= dv);
    }
    r
}

/// The scalar value of a block.
fn scalar_chars(vs: &Vec<Vec<char>>) -> (r: Vec<char>)
    ensures
        r@ == scalar_of(vs.deep_view()),
{
    let joined = join_nl(vs);
    trim_chars(&joined)
}

/// The scalar value of a block, as an owned string.
fn scalar_string(vs: &Vec<Vec<char>>) -> (r: String)
    ensures
        r@ == scalar_of(vs.deep_view()),
{
    let t = scalar_chars(vs);
    string_from_chars(&t)
}

/// The list elements of a block.
fn list_strings(vs: &Vec<Vec<char>>) -> (r: Vec<String>)
    ensures
        r.deep_view() == list_of(vs.deep_view()),
{
    let ghost dv = vs.deep_view();
    let mut r: Vec<String> = Vec::new();
    let mut i: usize = 0;
    while i < vs.len()
        invariant
            0 <= i <= vs@.len(),
            dv == vs.deep_view(),
            dv.len() == vs@.len(),
            r.deep_view() =~= list_of(dv.take(i as int)),
        decreases vs@.len() - i,
    {
        let ghost r0 = r.deep_view();
        proof {
            assert(dv[i as int] =~= vs@[i as int]@);
        }
        let t = trim_chars(&vs[i]);
        let s = string_from_chars(&t);
        r.push(s);
        proof {
            assert(r.deep_view() =~= r0.push(spec_trim(dv[i as int])));
            assert(r.deep_view() =~= list_of(dv.take(i + 1)));
        }
        i += 1;
    }
    proof {
        assert(dv.take(dv.len() as int) =~= dv);
    }
    r
}

/// The OPTDEPENDS entries of a block.
fn optdeps_exec(vs: &Vec<Vec<char>>) -> (r: Vec<OptionalDependency>)
    ensures
        r.deep_view() == optdeps_of(vs.deep_view()),
{
    let ghost dv = vs.deep_view();
    let mut r: Vec<OptionalDependency> = Vec::new();
    let mut i: usize = 0;
    while i < vs.len()
        invariant
            0 <= i <= vs@.len(),
            dv == vs.deep_view(),
            dv.len() == vs@.len(),
            r.deep_view() =~= optdeps_of(dv.take(i as int)),
        decreases vs@.len() - i,
    {
        let ghost r0 = r.deep_view();
        let line = &vs[i];
        proof {
            assert(dv[i as int] =~= line@);
        }
        let c = find_char(line, ':');
        proof {
            crate::text::lemma_first_index_of(line@, ':');
        }
        let dep = if c == line.len() {
            let t = trim_chars(line);
            OptionalDependency { package: string_from_chars(&t), reason: None }
        } else {
            let before = subvec(line, 0, c);
            let after = subvec(line, c + 1, line.len());
            proof {
                assert(before@ =~= line@.take(c as int));
                assert(after@ =~= line@.skip(c + 1));
            }
            let tb = trim_chars(&before);
            let ta = trim_chars(&after);
            OptionalDependency {
                package: string_from_chars(&tb),
                reason: Some(string_from_chars(&ta)),
            }
        };
        proof {
            assert(dep@ == optdep_of(dv[i as int]));
        }
        r.push(dep);
        proof {
            assert(r.deep_view() =~= r0.push(optdep_of(dv[i as int])));
            assert(r.deep_view() =~= optdeps_of(dv.take(i + 1)));
        }
        i += 1;
    }
    proof {
        assert(dv.take(dv.len() as int) =~= dv);
    }
    r
}

/// The PACKAGER field of a block's scalar value.
fn packager_exec(t: &Vec<char>) -> (r: Option<Packager>)
    ensures
        r.deep_view() == packager_of(t@),
{
    if str_eq_chars(t, "Unknown pacakger") || str_eq_chars(t, "Unknown packager") {
        return None;
    }
    let lt = find_char(t, '<');
    proof {
        crate::text::lemma_first_index_of(t@, '<');
    }
    let before = subvec(t, 0, lt);
    proof {
        assert(before@ =~= t@.take(lt as int));
    }
    let tb = trim_chars(&before);
    let name = string_from_chars(&tb);
    let email = match email_prefix_chars(t) {
        Some(v) => Some(string_from_chars(&v)),
        None => None,
    };
    Some(Packager { name, email })
}

/// The value lines of the last block bearing `lab`, if any; this block is
/// the one that decides the corresponding field.
pub open spec fn last_block(blocks: Seq<BlockV>, lab: Seq<char>) -> Option<Seq<Seq<char>>>
    decreases blocks.len(),
{
    if blocks.len() == 0 {
        None
    } else {
        match last_block(blocks.drop_first(), lab) {
            Some(v) => Some(v),
            None => if blocks[0].0 == lab {
                Some(blocks[0].1)
            } else {
                None
            },
        }
    }
}

/// Folding blocks from any starting point: each field ends up as the decode
/// of the last block bearing its label, or keeps its starting value when no
/// block bears it.  In particular the blocks' order among distinct labels
/// cannot matter.
#[verifier::rlimit(100)]
#[verifier::spinoff_prover]
pub proof fn lemma_fold_fields(blocks: Seq<BlockV>, acc: DescAcc)
    requires
        fold_blocks(blocks, acc) is Ok,
    ensures
        ({
            let a = fold_blocks(blocks, acc)->Ok_0;
            &&& a.name == (match last_block(blocks, "NAME"@) {
                Some(v) => Some(scalar_of(v)),
                None => acc.name,
            })
            &&& a.version == (match last_block(blocks, "VERSION"@) {
                Some(v) => Some(scalar_of(v)),
                None => acc.version,
            })
            &&& a.pkgbase == (match last_block(blocks, "BASE"@) {
                Some(v) => Some(scalar_of(v)),
                None => acc.pkgbase,
            })
            &&& a.description == (match last_block(blocks, "DESC"@) {
                Some(v) => Some(scalar_of(v)),
                None => acc.description,
            })
            &&& a.url == (match last_block(blocks, "URL"@) {
                Some(v) => Some(scalar_of(v)),
                None => acc.url,
            })
            &&& a.arch == (match last_block(blocks, "ARCH"@) {
                Some(v) => arch_of(scalar_of(v)),
                None => acc.arch,
            })
            &&& a.build_date == (match last_block(blocks, "BUILDDATE"@) {
                Some(v) => spec_parse_u64(scalar_of(v)),
                None => acc.build_date,
            })
            &&& a.install_date == (match last_block(blocks, "INSTALLDATE"@) {
                Some(v) => spec_parse_u64(scalar_of(v)),
                None => acc.install_date,
            })
            &&& a.packager == (match last_block(blocks, "PACKAGER"@) {
                Some(v) => packager_of(scalar_of(v)),
                None => acc.packager,
            })
            &&& a.size == (match last_block(blocks, "SIZE"@) {
                Some(v) => spec_parse_u64(scalar_of(v)),
                None => acc.size,
            })
            &&& a.reason == (match last_block(blocks, "REASON"@) {
                Some(v) => spec_parse_u8(scalar_of(v)),
                None => acc.reason,
            })
            &&& a.licences == (match last_block(blocks, "LICENSE"@) {
                Some(v) => Some(list_of(v)),
                None => acc.licences,
            })
            &&& a.validation == (match last_block(blocks, "VALIDATION"@) {
                Some(v) => validation_of(scalar_of(v)),
                None => acc.validation,
            })
            &&& a.replaces == (match last_block(blocks, "REPLACES"@) {
                Some(v) => Some(list_of(v)),
                None => acc.replaces,
            })
            &&& a.dependencies == (match last_block(blocks, "DEPENDS"@) {
                Some(v) => Some(list_of(v)),
                None => acc.dependencies,
            })
            &&& a.optional_dependencies == (match last_block(blocks, "OPTDEPENDS"@) {
                Some(v) => Some(optdeps_of(v)),
                None => acc.optional_dependencies,
            })
            &&& a.provides == (match last_block(blocks, "PROVIDES"@) {
                Some(v) => Some(list_of(v)),
                None => acc.provides,
            })
            &&& a.groups == (match last_block(blocks, "GROUPS"@) {
                Some(v) => Some(list_of(v)),
                None => acc.groups,
            })
            &&& a.conflicts == (match last_block(blocks, "CONFLICTS"@) {
                Some(v) => Some(list_of(v)),
                None => acc.conflicts,
            })
        }),
    decreases blocks.len(),
{
    // The per-field case analysis needs the recognized labels pairwise
    // distinct; revealing them and pinning each length and first character
    // settles that.
    reveal_strlit("NAME");
    reveal_strlit("VERSION");
    reveal_strlit("BASE");
    reveal_strlit("DESC");
    reveal_strlit("URL");
    reveal_strlit("ARCH");
    reveal_strlit("BUILDDATE");
    reveal_strlit("INSTALLDATE");
    reveal_strlit("PACKAGER");
    reveal_strlit("SIZE");
    reveal_strlit("REASON");
    reveal_strlit("LICENSE");
    reveal_strlit("VALIDATION");
    reveal_strlit("REPLACES");
    reveal_strlit("DEPENDS");
    reveal_strlit("OPTDEPENDS");
    reveal_strlit("PROVIDES");
    reveal_strlit("GROUPS");
    reveal_strlit("CONFLICTS");
    assert("NAME"@.len() == 4);
    assert("NAME"@[0] == 'N');
    assert("VERSION"@.len() == 7);
    assert("VERSION"@[0] == 'V');
    assert("BASE"@.len() == 4);
    assert("BASE"@[0] == 'B');
    assert("DESC"@.len() == 4);
    assert("DESC"@[0] == 'D');
    assert("URL"@.len() == 3);
    assert("URL"@[0] == 'U');
    assert("ARCH"@.len() == 4);
    assert("ARCH"@[0] == 'A');
    assert("BUILDDATE"@.len() == 9);
    assert("BUILDDATE"@[0] == 'B');
    assert("INSTALLDATE"@.len() == 11);
    assert("INSTALLDATE"@[0] == 'I');
    assert("PACKAGER"@.len() == 8);
    assert("PACKAGER"@[0] == 'P');
    assert("SIZE"@.len() == 4);
    assert("SIZE"@[0] == 'S');
    assert("REASON"@.len() == 6);
    assert("REASON"@[0] == 'R');
    assert("LICENSE"@.len() == 7);
    assert("LICENSE"@[0] == 'L');
    assert("VALIDATION"@.len() == 10);
    assert("VALIDATION"@[0] == 'V');
    assert("REPLACES"@.len() == 8);
    assert("REPLACES"@[0] == 'R');
    assert("DEPENDS"@.len() == 7);
    assert("DEPENDS"@[0] == 'D');
    assert("OPTDEPENDS"@.len() == 10);
    assert("OPTDEPENDS"@[0] == 'O');
    assert("PROVIDES"@.len() == 8);
    assert("PROVIDES"@[0] == 'P');
    assert("GROUPS"@.len() == 6);
    assert("GROUPS"@[0] == 'G');
    assert("CONFLICTS"@.len() == 9);
    assert("CONFLICTS"@[0] == 'C');
    assert("PACKAGER"@[1] == 'A');
    assert("PROVIDES"@[1] == 'R');
    if blocks.len() > 0 {
        assert(apply_block(acc, blocks[0].0, blocks[0].1) is Ok);
        let a1 = apply_block(acc, blocks[0].0, blocks[0].1)->Ok_0;
        assert(fold_blocks(blocks, acc) == fold_blocks(blocks.drop_first(), a1));
        lemma_fold_fields(blocks.drop_first(), a1);
    }
}

/// Field-determination law: when parsing succeeds, each field of the record
/// equals the decode of the last block bearing its label, and a field with
/// no block keeps its default — absent for scalars, empty for lists.  Fields
/// given in any order therefore decode the same way.
pub proof fn lemma_parse_desc_fields(text: Seq<char>)
    requires
        spec_parse_desc(text) is Ok,
    ensures
        ({
            let blocks = spec_blocks(spec_split(text, '\n'));
            let d = spec_parse_desc(text)->Ok_0;
            &&& last_block(blocks, "NAME"@) is Some
            &&& d.name == scalar_of(last_block(blocks, "NAME"@)->Some_0)
            &&& last_block(blocks, "VERSION"@) is Some
            &&& d.version == scalar_of(last_block(blocks, "VERSION"@)->Some_0)
            &&& d.pkgbase == (match last_block(blocks, "BASE"@) {
                Some(v) => Some(scalar_of(v)),
                None => None::<Seq<char>>,
            })
            &&& d.description == (match last_block(blocks, "DESC"@) {
                Some(v) => Some(scalar_of(v)),
                None => None::<Seq<char>>,
            })
            &&& d.url == (match last_block(blocks, "URL"@) {
                Some(v) => Some(scalar_of(v)),
                None => None::<Seq<char>>,
            })
            &&& d.arch == (match last_block(blocks, "ARCH"@) {
                Some(v) => arch_of(scalar_of(v)),
                None => None::<Arch>,
            })
            &&& d.build_date == (match last_block(blocks, "BUILDDATE"@) {
                Some(v) => spec_parse_u64(scalar_of(v)),
                None => None::<u64>,
            })
            &&& d.install_date == (match last_block(blocks, "INSTALLDATE"@) {
                Some(v) => spec_parse_u64(scalar_of(v)),
                None => None::<u64>,
            })
            &&& d.packager == (match last_block(blocks, "PACKAGER"@) {
                Some(v) => packager_of(scalar_of(v)),
                None => None::<PackagerV>,
            })
            &&& d.size == (match last_block(blocks, "SIZE"@) {
                Some(v) => spec_parse_u64(scalar_of(v)),
                None => None::<u64>,
            })
            &&& d.reason == (match last_block(blocks, "REASON"@) {
                Some(v) => spec_parse_u8(scalar_of(v)),
                None => None::<u8>,
            })
            &&& d.licences == (match last_block(blocks, "LICENSE"@) {
                Some(v) => list_of(v),
                None => Seq::<Seq<char>>::empty(),
            })
            &&& d.validation == (match last_block(blocks, "VALIDATION"@) {
                Some(v) => validation_of(scalar_of(v)),
                None => None::<Validation>,
            })
            &&& d.replaces == (match last_block(blocks, "REPLACES"@) {
                Some(v) => list_of(v),
                None => Seq::<Seq<char>>::empty(),
            })
            &&& d.dependencies == (match last_block(blocks, "DEPENDS"@) {
                Some(v) => list_of(v),
                None => Seq::<Seq<char>>::empty(),
            })
            &&& d.optional_dependencies == (match last_block(blocks, "OPTDEPENDS"@) {
                Some(v) => optdeps_of(v),
                None => Seq::<OptionalDependencyV>::empty(),
            })
            &&& d.provides == (match last_block(blocks, "PROVIDES"@) {
                Some(v) => list_of(v),
                None => Seq::<Seq<char>>::empty(),
            })
            &&& d.groups == (match last_block(blocks, "GROUPS"@) {
                Some(v) => list_of(v),
                None => Seq::<Seq<char>>::empty(),
            })
            &&& d.conflicts == (match last_block(blocks, "CONFLICTS"@) {
                Some(v) => list_of(v),
                None => Seq::<Seq<char>>::empty(),
            })
        }),
{
    let blocks = spec_blocks(spec_split(text, '\n'));
    lemma_fold_fields(blocks, acc_init());
}

/// Missing-field law, name: text whose blocks never bear the NAME label
/// cannot parse to a record, and when no block errors first, the fault is
/// precisely the missing name.
pub proof fn lemma_missing_name(text: Seq<char>)
    requires
        last_block(spec_blocks(spec_split(text, '\n')), "NAME"@) is None,
    ensures
        spec_parse_desc(text) is Err,
        fold_blocks(spec_blocks(spec_split(text, '\n')), acc_init()) is Ok ==> spec_parse_desc(
            text,
        ) == Err::<PackageDescriptionV, ErrorV>(ErrorV::MissingName),
{
    let blocks = spec_blocks(spec_split(text, '\n'));
    if fold_blocks(blocks, acc_init()) is Ok {
        lemma_fold_fields(blocks, acc_init());
    }
}

/// Missing-field law, version: text whose blocks never bear the VERSION
/// label cannot parse to a record; when no block errors first and a name is
/// present, the fault is precisely the missing version.
pub proof fn lemma_missing_version(text: Seq<char>)
    requires
        last_block(spec_blocks(spec_split(text, '\n')), "VERSION"@) is None,
    ensures
        spec_parse_desc(text) is Err,
        fold_blocks(spec_blocks(spec_split(text, '\n')), acc_init()) is Ok && last_block(
            spec_blocks(spec_split(text, '\n')),
            "NAME"@,
        ) is Some ==> spec_parse_desc(text) == Err::<PackageDescriptionV, ErrorV>(
            ErrorV::MissingVersion,
        ),
{
    let blocks = spec_blocks(spec_split(text, '\n'));
    if fold_blocks(blocks, acc_init()) is Ok {
        lemma_fold_fields(blocks, acc_init());
    }
}

/// Leniency law, first half: a REASON block never fails a parse, whatever
/// its value holds.
pub proof fn lemma_reason_never_errors(acc: DescAcc, vs: Seq<Seq<char>>)
    ensures
        apply_block(acc, "REASON"@, vs) is Ok,
{
    reveal_strlit("NAME");
    reveal_strlit("VERSION");
    reveal_strlit("BASE");
    reveal_strlit("DESC");
    reveal_strlit("URL");
    reveal_strlit("ARCH");
    reveal_strlit("BUILDDATE");
    reveal_strlit("INSTALLDATE");
    reveal_strlit("PACKAGER");
    reveal_strlit("SIZE");
    reveal_strlit("REASON");
    assert("REASON"@.len() == 6);
}

/// Leniency law, second half: when the deciding REASON block's value is not
/// an integer, a successful parse leaves the install reason absent.
pub proof fn lemma_reason_leniency(text: Seq<char>)
    requires
        spec_parse_desc(text) is Ok,
        match last_block(spec_blocks(spec_split(text, '\n')), "REASON"@) {
            Some(v) => spec_parse_u8(scalar_of(v)) is None,
            None => true,
        },
    ensures
        spec_parse_desc(text)->Ok_0.reason is None,
{
    lemma_parse_desc_fields(text);
}

/// The executable twin of [`DescAcc`].
struct AccExec {
    name: Option<String>,
    version: Option<String>,
    pkgbase: Option<String>,
    description: Option<String>,
    url: Option<String>,
    arch: Option<Arch>,
    build_date: Option<u64>,
    install_date: Option<u64>,
    packager: Option<Packager>,
    size: Option<u64>,
    reason: Option<u8>,
    licences: Option<Vec<String>>,
    validation: Option<Validation>,
    replaces: Option<Vec<String>>,
    dependencies: Option<Vec<String>>,
    optional_dependencies: Option<Vec<OptionalDependency>>,
    provides: Option<Vec<String>>,
    groups: Option<Vec<String>>,
    conflicts: Option<Vec<String>>,
}

spec fn acc_view(a: &AccExec) -> DescAcc {
    DescAcc {
        name: a.name.deep_view(),
        version: a.version.deep_view(),
        pkgbase: a.pkgbase.deep_view(),
        description: a.description.deep_view(),
        url: a.url.deep_view(),
        arch: a.arch,
        build_date: a.build_date,
        install_date: a.install_date,
        packager: a.packager.deep_view(),
        size: a.size,
        reason: a.reason,
        licences: match a.licences {
            Some(v) => Some(v.deep_view()),
            None => None,
        },
        validation: a.validation,
        replaces: match a.replaces {
            Some(v) => Some(v.deep_view()),
            None => None,
        },
        dependencies: match a.dependencies {
            Some(v) => Some(v.deep_view()),
            None => None,
        },
        optional_dependencies: match a.optional_dependencies {
            Some(v) => Some(v.deep_view()),
            None => None,
        },
        provides: match a.provides {
            Some(v) => Some(v.deep_view()),
            None => None,
        },
        groups: match a.groups {
            Some(v) => Some(v.deep_view()),
            None => None,
        },
        conflicts: match a.conflicts {
            Some(v) => Some(v.deep_view()),
            None => None,
        },
    }
}

/// Decodes one package's descriptor text into a record, or reports the first
/// fault: an unrecognized label, a value outside a closed set, or a missing
/// mandatory field.
pub fn parse_desc(desc: &str) -> (r: Result<PackageDescription, Error>)
    ensures
        match r {
            Ok(d) => spec_parse_desc(desc@) == Ok::<PackageDescriptionV, ErrorV>(d@),
            Err(e) => spec_parse_desc(desc@) == Err::<PackageDescriptionV, ErrorV>(e@),
        },
{
    let cv = chars_of(desc);
    let lines = split_chars(&cv, '\n');
    let blocks = make_blocks(&lines);
    let ghost bsv = blocks.deep_view();
    let mut acc = AccExec {
        name: None,
        version: None,
        pkgbase: None,
        description: None,
        url: None,
        arch: None,
        build_date: None,
        install_date: None,
        packager: None,
        size: None,
        reason: None,
        licences: None,
        validation: None,
        replaces: None,
        dependencies: None,
        optional_dependencies: None,
        provides: None,
        groups: None,
        conflicts: None,
    };
    proof {
        assert(acc_view(&acc) == acc_init());
        assert(bsv.skip(0) =~= bsv);
    }
    let mut i: usize = 0;
    while i < blocks.len()
        invariant
            0 <= i <= blocks@.len(),
            bsv == blocks.deep_view(),
            bsv.len() == blocks@.len(),
            spec_parse_desc(desc@) == (match fold_blocks(bsv.skip(i as int), acc_view(&acc)) {
                Ok(a) => finish_desc(a),
                Err(e) => Err::<PackageDescriptionV, ErrorV>(e),
            }),
        decreases blocks@.len() - i,
    {
        let ghost a0 = acc_view(&acc);
        let ghost lab = bsv[i as int].0;
        let ghost vs = bsv[i as int].1;
        proof {
            assert(bsv.skip(i as int)[0] == bsv[i as int]);
            assert(bsv.skip(i as int).drop_first() =~= bsv.skip(i + 1));
        }
        let b = &blocks[i];
        proof {
            assert(b.0@ == lab);
            assert(b.1.deep_view() == vs);
        }
        if str_eq_chars(&b.0, "NAME") {
            acc.name = Some(scalar_string(&b.1));
        } else if str_eq_chars(&b.0, "VERSION") {
            acc.version = Some(scalar_string(&b.1));
        } else if str_eq_chars(&b.0, "BASE") {
            acc.pkgbase = Some(scalar_string(&b.1));
        } else if str_eq_chars(&b.0, "DESC") {
            acc.description = Some(scalar_string(&b.1));
        } else if str_eq_chars(&b.0, "URL") {
            acc.url = Some(scalar_string(&b.1));
        } else if str_eq_chars(&b.0, "ARCH") {
            let t = scalar_chars(&b.1);
            if str_eq_chars(&t, "any") {
                acc.arch = Some(Arch::Any);
            } else if str_eq_chars(&t, "x86_64") {
                acc.arch = Some(Arch::X86_64);
            } else {
                return Err(Error::BadArchitecture(string_from_chars(&t)));
            }
        } else if str_eq_chars(&b.0, "BUILDDATE") {
            let t = scalar_chars(&b.1);
            acc.build_date = parse_u64_chars(&t);
        } else if str_eq_chars(&b.0, "INSTALLDATE") {
            let t = scalar_chars(&b.1);
            acc.install_date = parse_u64_chars(&t);
        } else if str_eq_chars(&b.0, "PACKAGER") {
            let t = scalar_chars(&b.1);
            acc.packager = packager_exec(&t);
        } else if str_eq_chars(&b.0, "SIZE") {
            let t = scalar_chars(&b.1);
            acc.size = parse_u64_chars(&t);
        } else if str_eq_chars(&b.0, "REASON") {
            let t = scalar_chars(&b.1);
            acc.reason = parse_u8_chars(&t);
        } else if str_eq_chars(&b.0, "LICENSE") {
            acc.licences = Some(list_strings(&b.1));
        } else if str_eq_chars(&b.0, "VALIDATION") {
            let t = scalar_chars(&b.1);
            if str_eq_chars(&t, "pgp") {
                acc.validation = Some(Validation::Pgp);
            } else if str_eq_chars(&t, "none") {
                acc.validation = Some(Validation::NoSignature);
            } else {
                return Err(Error::BadValidation(string_from_chars(&t)));
            }
        } else if str_eq_chars(&b.0, "REPLACES") {
            acc.replaces = Some(list_strings(&b.1));
        } else if str_eq_chars(&b.0, "DEPENDS") {
            acc.dependencies = Some(list_strings(&b.1));
        } else if str_eq_chars(&b.0, "OPTDEPENDS") {
            acc.optional_dependencies = Some(optdeps_exec(&b.1));
        } else if str_eq_chars(&b.0, "PROVIDES") {
            acc.provides = Some(list_strings(&b.1));
        } else if str_eq_chars(&b.0, "GROUPS") {
            acc.groups = Some(list_strings(&b.1));
        } else if str_eq_chars(&b.0, "CONFLICTS") {
            acc.conflicts = Some(list_strings(&b.1));
        } else {
            let pkg = match &acc.name {
                Some(n) => n.clone(),
                None => String::from_str("<name not found>"),
            };
            return Err(Error::UnknownSection(string_from_chars(&b.0), pkg));
        }
        proof {
            assert(apply_block(a0, lab, vs) == Ok::<DescAcc, ErrorV>(acc_view(&acc)));
        }
        i += 1;
    }
    proof {
        assert(bsv.skip(bsv.len() as int) =~= Seq::<BlockV>::empty());
    }
    let ghost af = acc_view(&acc);
    let AccExec {
        name,
        version,
        pkgbase,
        description,
        url,
        arch,
        build_date,
        install_date,
        packager,
        size,
        reason,
        licences,
        validation,
        replaces,
        dependencies,
        optional_dependencies,
        provides,
        groups,
        conflicts,
    } = acc;
    let name = match name {
        Some(n) => n,
        None => {
            return Err(Error::MissingName);
        },
    };
    let version = match version {
        Some(v) => v,
        None => {
            return Err(Error::MissingVersion);
        },
    };
    let licences = match licences {
        Some(v) => v,
        None => Vec::new(),
    };
    let replaces = match replaces {
        Some(v) => v,
        None => Vec::new(),
    };
    let dependencies = match dependencies {
        Some(v) => v,
        None => Vec::new(),
    };
    let optional_dependencies = match optional_dependencies {
        Some(v) => v,
        None => Vec::new(),
    };
    let provides = match provides {
        Some(v) => v,
        None => Vec::new(),
    };
    let groups = match groups {
        Some(v) => v,
        None => Vec::new(),
    };
    let conflicts = match conflicts {
        Some(v) => v,
        None => Vec::new(),
    };
    proof {
        assert(licences.deep_view() =~= or_empty(af.licences));
        assert(replaces.deep_view() =~= or_empty(af.replaces));
        assert(dependencies.deep_view() =~= or_empty(af.dependencies));
        assert(optional_dependencies.deep_view() =~= (match af.optional_dependencies {
            Some(x) => x,
            None => Seq::<OptionalDependencyV>::empty(),
        }));
        assert(provides.deep_view() =~= or_empty(af.provides));
        assert(groups.deep_view() =~= or_empty(af.groups));
        assert(conflicts.deep_view() =~= or_empty(af.conflicts));
    }
    let d = PackageDescription {
        name,
        version,
        pkgbase,
        description,
        url,
        arch,
        build_date,
        install_date,
        packager,
        size,
        reason,
        licences,
        validation,
        replaces,
        dependencies,
        optional_dependencies,
        provides,
        groups,
        conflicts,
    };
    Ok(d)
}

} // verus!
