//! Dialect detection: which of the four notation revisions an input is
//! written in, read off its first substantive line.

use vstd::prelude::*;

use crate::engine::{parse_dialect, spec_parse_dialect};
use crate::text::{
    chars_of, range_eq_str, range_starts_with_str, split_lines, split_lines_exec,
    starts_with, trim, trim_bounds,
};
use crate::value::GameRecord;

verus! {

/// The four supported notation revisions, oldest first.
#[derive(Debug, Clone, Copy, PartialEq, Eq, Structural)]
pub enum Version {
    V2,
    V2_1,
    V2_2,
    V3,
}

/// The token that declares a dialect on its own line.
pub open spec fn version_token(v: Version) -> Seq<char> {
    match v {
        Version::V2 => "V2"@,
        Version::V2_1 => "V2.1"@,
        Version::V2_2 => "V2.2"@,
        Version::V3 => "V3.0"@,
    }
}

/// The version token as a string slice.
pub fn version_token_str(v: Version) -> (r: &'static str)
    ensures
        r@ == version_token(v),
{
    match v {
        Version::V2 => "V2",
        Version::V2_1 => "V2.1",
        Version::V2_2 => "V2.2",
        Version::V3 => "V3.0",
    }
}

/// What one trimmed line means to detection.
pub open spec fn line_version(t: Seq<char>) -> Option<Version> {
    if t == "V3.0"@ {
        Some(Version::V3)
    } else if t == "V2.2"@ {
        Some(Version::V2_2)
    } else if t == "V2.1"@ {
        Some(Version::V2_1)
    } else if t == "V2"@ {
        Some(Version::V2)
    } else {
        None
    }
}

/// Scan the lines in order: an encoding-declaration comment selects the
/// newest dialect at once; other comments and blank lines are skipped; the
/// first substantive line decides, a version token selecting its dialect and
/// anything else selecting none.
pub open spec fn spec_detect_from(lines: Seq<Seq<char>>, i: int) -> Option<Version>
    decreases lines.len() - i,
{
    if i < 0 || i >= lines.len() {
        None
    } else {
        let t = trim(lines[i]);
        if starts_with(t, "'CSA encoding="@) {
            Some(Version::V3)
        } else if t.len() > 0 && t[0] == '\'' {
            spec_detect_from(lines, i + 1)
        } else if line_version(t) is Some {
            line_version(t)
        } else if t.len() > 0 {
            None
        } else {
            spec_detect_from(lines, i + 1)
        }
    }
}

/// The dialect an input declares, if any.
pub open spec fn spec_detect(s: Seq<char>) -> Option<Version> {
    spec_detect_from(split_lines(s), 0)
}

/// Detect the dialect of `input` from its first substantive line.
pub fn detect_version(input: &str) -> (r: Option<Version>)
    ensures
        r == spec_detect(input@),
{
    let chars = chars_of(input);
    let lines = split_lines_exec(&chars);
    let ghost ls = split_lines(input@);
    let n = lines.len();
    let mut i: usize = 0;
    while i < n
        invariant
            ls == split_lines(input@),
            n == ls.len(),
            lines.deep_view() == ls,
            i <= n,
            spec_detect_from(ls, 0) == spec_detect_from(ls, i as int),
        decreases n - i,
    {
        let line = &lines[i];
        proof {
            assert(line@ == ls[i as int]);
        }
        let len = line.len();
        let (lo, hi) = trim_bounds(line, 0, len);
        let ghost t = trim(ls[i as int]);
        proof {
            assert(line@.subrange(0, len as int) =~= line@);
            assert(trim(line@.subrange(0, len as int)) == line@.subrange(lo as int, hi as int));
            assert(t == line@.subrange(lo as int, hi as int));
        }
        if range_starts_with_str(line, lo, hi, "'CSA encoding=") {
            proof {
                assert(starts_with(t, "'CSA encoding="@));
                assert(spec_detect_from(ls, i as int) == Some(Version::V3));
                assert(spec_detect(input@) == Some(Version::V3));
            }
            return Some(Version::V3);
        }
        if hi > lo && line[lo] == '\'' {
            proof {
                assert(t[0] == '\'');
            }
            i = i + 1;
            continue;
        }
        if range_eq_str(line, lo, hi, "V3.0") {
            proof {
                assert(spec_detect_from(ls, i as int) == Some(Version::V3));
                assert(spec_detect(input@) == spec_detect_from(ls, 0));
            }
            return Some(Version::V3);
        }
        if range_eq_str(line, lo, hi, "V2.2") {
            proof {
                assert(spec_detect_from(ls, i as int) == Some(Version::V2_2));
                assert(spec_detect(input@) == spec_detect_from(ls, 0));
            }
            return Some(Version::V2_2);
        }
        if range_eq_str(line, lo, hi, "V2.1") {
            proof {
                assert(spec_detect_from(ls, i as int) == Some(Version::V2_1));
                assert(spec_detect(input@) == spec_detect_from(ls, 0));
            }
            return Some(Version::V2_1);
        }
        if range_eq_str(line, lo, hi, "V2") {
            proof {
                assert(spec_detect_from(ls, i as int) == Some(Version::V2));
                assert(spec_detect(input@) == spec_detect_from(ls, 0));
            }
            return Some(Version::V2);
        }
        if hi > lo {
            proof {
                assert(spec_detect_from(ls, i as int) is None);
                assert(spec_detect(input@) == spec_detect_from(ls, 0));
            }
            return None;
        }
        proof {
            assert(spec_detect_from(ls, i as int) == spec_detect_from(ls, i + 1));
        }
        i = i + 1;
    }
    proof {
        assert(spec_detect_from(ls, i as int) is None);
        assert(spec_detect(input@) == spec_detect_from(ls, 0));
    }
    None
}

/// A line detection passes over: blank once trimmed, or an ordinary comment
/// that is no encoding declaration.
pub open spec fn skippable_line(l: Seq<char>) -> bool {
    let t = trim(l);
    &&& !starts_with(t, "'CSA encoding="@)
    &&& (t.len() == 0 || t[0] == '\'')
}

proof fn lemma_detect_skips_prefix(lines: Seq<Seq<char>>, i: int)
    requires
        0 <= i <= lines.len(),
        forall|j: int| 0 <= j < i ==> skippable_line(#[trigger] lines[j]),
    ensures
        spec_detect_from(lines, 0) == spec_detect_from(lines, i),
    decreases i,
{
    reveal_strlit("V2");
    reveal_strlit("V2.1");
    reveal_strlit("V2.2");
    reveal_strlit("V3.0");
    if i > 0 {
        lemma_detect_skips_prefix(lines, i - 1);
        assert(skippable_line(lines[i - 1]));
        let t = trim(lines[i - 1]);
        assert(t.len() == 0 ==> line_version(t) is None);
    }
}

/// A version token on the first substantive line selects exactly its
/// dialect, whatever blank lines and ordinary comments precede it and
/// whatever follows.
pub proof fn lemma_detect_version_token(lines: Seq<Seq<char>>, i: int, v: Version)
    requires
        0 <= i < lines.len(),
        forall|j: int| 0 <= j < i ==> skippable_line(#[trigger] lines[j]),
        trim(lines[i]) == version_token(v),
    ensures
        spec_detect_from(lines, 0) == Some(v),
{
    lemma_detect_skips_prefix(lines, i);
    reveal_strlit("'CSA encoding=");
    reveal_strlit("V2");
    reveal_strlit("V2.1");
    reveal_strlit("V2.2");
    reveal_strlit("V3.0");
    let t = trim(lines[i]);
    assert(!starts_with(t, "'CSA encoding="@));
    assert(t[0] == 'V');
    assert("V2.1"@[1] != "V3.0"@[1]);
    assert("V2.1"@[3] != "V2.2"@[3]);
    assert("V2.2"@[1] != "V3.0"@[1]);
    match v {
        Version::V2 => {
            assert(t != "V3.0"@ && t != "V2.2"@ && t != "V2.1"@);
        },
        Version::V2_1 => {
            assert(t != "V3.0"@ && t != "V2.2"@);
        },
        Version::V2_2 => {
            assert(t != "V3.0"@);
        },
        Version::V3 => {
        },
    }
}

/// An encoding-declaration comment selects the newest dialect, whatever
/// blank lines and ordinary comments precede it and whatever follows.
pub proof fn lemma_detect_encoding_comment(lines: Seq<Seq<char>>, i: int)
    requires
        0 <= i < lines.len(),
        forall|j: int| 0 <= j < i ==> skippable_line(#[trigger] lines[j]),
        starts_with(trim(lines[i]), "'CSA encoding="@),
    ensures
        spec_detect_from(lines, 0) == Some(Version::V3),
{
    lemma_detect_skips_prefix(lines, i);
}

/// A first substantive line that is no version token and no encoding
/// declaration yields no dialect at all.
pub proof fn lemma_detect_unknown(lines: Seq<Seq<char>>, i: int)
    requires
        0 <= i < lines.len(),
        forall|j: int| 0 <= j < i ==> skippable_line(#[trigger] lines[j]),
        !skippable_line(lines[i]),
        !starts_with(trim(lines[i]), "'CSA encoding="@),
        line_version(trim(lines[i])) is None,
    ensures
        spec_detect_from(lines, 0) is None,
{
    lemma_detect_skips_prefix(lines, i);
    let t = trim(lines[i]);
    assert(t.len() > 0);
}

/// The meaning of an input under automatic detection: no dialect, no
/// record.
pub open spec fn spec_parse_csa(s: Seq<char>) -> Option<crate::value::GameRecordModel> {
    match spec_detect(s) {
        None => None,
        Some(v) => spec_parse_dialect(v, s),
    }
}

/// The one error shape of this level: a human-readable message.
#[derive(Debug)]
pub struct ParseError(pub String);

impl ParseError {
    /// The diagnostic text.
    pub fn message(&self) -> (r: String)
        ensures
            r@ == self.0@,
    {
        self.0.clone()
    }
}

/// Parse an input, auto-detecting its dialect; an input without a dialect
/// and one its dialect's grammar rejects both fail.
pub fn parse(input: &str) -> (r: Result<GameRecord, ParseError>)
    ensures
        match r {
            Ok(rec) => spec_parse_csa(input@) == Some(rec@),
            Err(_) => spec_parse_csa(input@) is None,
        },
        spec_detect(input@) is None ==> r is Err,
{
    let v = match detect_version(input) {
        Some(v) => v,
        None => {
            return Err(
                ParseError(String::from_str("No version found or unsupported version")),
            );
        },
    };
    match parse_dialect(v, input) {
        Ok(rec) => Ok(rec),
        Err(m) => Err(ParseError(m)),
    }
}

} // verus!
