//! Ownership-list parser: the plain-text alternative to the manifest, for
//! callers that need only the owned paths, without attributes or hashes.
//!
//! The text's first line is a header to discard; every following line is one
//! root-relative path, made absolute by prefixing the root separator where it
//! is not already there.

use vstd::prelude::*;

use crate::text::{chars_of, push_all, spec_split, spec_trim, split_chars, string_from_chars, subvec, trim_chars};
use crate::Error;

verus! {

/// One listed line as an absolute path.
pub open spec fn file_line_path(line: Seq<char>) -> Seq<char> {
    if line.len() > 0 && line[0] == '/' {
        line
    } else {
        seq!['/'] + line
    }
}

/// The owned paths an ownership list names: everything after the header
/// line, each made absolute.
pub open spec fn spec_read_files(text: Seq<char>) -> Seq<Seq<char>> {
    spec_split(spec_trim(text), '\n').drop_first().map_values(|l: Seq<char>| file_line_path(l))
}

/// Decodes an ownership list into absolute paths, one per line after the
/// header.  No line can fail to decode, so the result is always owed.
pub fn read_files(files: &str) -> (r: Result<Vec<String>, Error>)
    ensures
        r is Ok,
        r matches Ok(v) ==> v.deep_view() == spec_read_files(files@),
{
    let cv = chars_of(files);
    let t = trim_chars(&cv);
    let lines = split_chars(&t, '\n');
    let ghost lsv = lines.deep_view();
    let ghost tail = lsv.drop_first();
    let mut out: Vec<String> = Vec::new();
    let mut i: usize = 1;
    proof {
        crate::text::lemma_split_nonempty(spec_trim(files@), '\n');
        assert(out.deep_view() =~= tail.take(0).map_values(|l: Seq<char>| file_line_path(l)));
    }
    while i < lines.len()
        invariant
            1 <= i <= lines@.len() || (lines@.len() == 0 && i == 1),
            lsv == lines.deep_view(),
            lsv.len() == lines@.len(),
            lsv.len() >= 1,
            tail == lsv.drop_first(),
            out.deep_view() == tail.take(i - 1).map_values(|l: Seq<char>| file_line_path(l)),
        decreases lines@.len() - i,
    {
        let line = &lines[i];
        proof {
            assert(line@ =~= lsv[i as int]);
            assert(tail[i - 1] == lsv[i as int]);
        }
        let path = if line.len() > 0 && line[0] == '/' {
            subvec(line, 0, line.len())
        } else {
            let mut p: Vec<char> = Vec::new();
            p.push('/');
            push_all(&mut p, line);
            proof {
                assert(p@ =~= seq!['/'] + line@);
            }
            p
        };
        proof {
            assert(path@ =~= file_line_path(lsv[i as int]));
        }
        let ghost o0 = out.deep_view();
        out.push(string_from_chars(&path));
        proof {
            assert(out.deep_view() =~= o0.push(file_line_path(tail[i - 1])));
            assert(out.deep_view() =~= tail.take(i as int).map_values(
                |l: Seq<char>| file_line_path(l),
            ));
        }
        i += 1;
    }
    proof {
        assert(tail.take(tail.len() as int) =~= tail);
    }
    Ok(out)
}

} // verus!
