//! Classification of a script's Python dialect from its first lines: a
//! shebang is decisive; otherwise fixed lexical signals of the two dialects
//! are counted and the strictly higher count wins.

use vstd::prelude::*;
use crate::text::{
    chars_of, contains_lit, contains_lit_spaced, contains_seq, contains_spaced, eq_lit, is_sub_at,
};

verus! {

/// The Python dialect a script is classified as: Python 2, Python 3, or
/// generic Python when neither is evident.
#[derive(Clone, Copy, Debug, PartialEq, Eq, Structural)]
pub enum PythonVersion {
    Python2,
    Python3,
    Python,
}

impl PythonVersion {
    /// The interpreter command the dialect is launched with.
    pub open spec fn spec_command(self) -> Seq<char> {
        match self {
            PythonVersion::Python2 => "python2"@,
            PythonVersion::Python3 => "python3"@,
            PythonVersion::Python => "python"@,
        }
    }

    pub fn command(&self) -> (r: &'static str)
        ensures
            r@ == self.spec_command(),
    {
        match self {
            PythonVersion::Python2 => "python2",
            PythonVersion::Python3 => "python3",
            PythonVersion::Python => "python",
        }
    }

    /// The label the dialect is persisted under.
    pub open spec fn spec_label(self) -> Seq<char> {
        match self {
            PythonVersion::Python2 => "Python2"@,
            PythonVersion::Python3 => "Python3"@,
            PythonVersion::Python => "Python"@,
        }
    }

    pub fn label(&self) -> (r: &'static str)
        ensures
            r@ == self.spec_label(),
    {
        match self {
            PythonVersion::Python2 => "Python2",
            PythonVersion::Python3 => "Python3",
            PythonVersion::Python => "Python",
        }
    }
}

/// The dialect a persisted label denotes, if any.
pub open spec fn version_of_label(s: Seq<char>) -> Option<PythonVersion> {
    if s == "Python2"@ {
        Some(PythonVersion::Python2)
    } else if s == "Python3"@ {
        Some(PythonVersion::Python3)
    } else if s == "Python"@ {
        Some(PythonVersion::Python)
    } else {
        None
    }
}

pub fn version_from_chars(v: &Vec<char>) -> (r: Option<PythonVersion>)
    ensures
        r == version_of_label(v@),
{
    if eq_lit(v, "Python2") {
        Some(PythonVersion::Python2)
    } else if eq_lit(v, "Python3") {
        Some(PythonVersion::Python3)
    } else if eq_lit(v, "Python") {
        Some(PythonVersion::Python)
    } else {
        None
    }
}

/// Every label parses back to the dialect it was written for.
pub proof fn lemma_label_round_trip(v: PythonVersion)
    ensures
        version_of_label(v.spec_label()) == Some(v),
{
    reveal_strlit("Python2");
    reveal_strlit("Python3");
    reveal_strlit("Python");
    assert("Python2"@.len() == 7);
    assert("Python3"@.len() == 7);
    assert("Python"@.len() == 6);
    assert("Python2"@ != "Python3"@) by {
        assert("Python2"@[6] == '2');
        assert("Python3"@[6] == '3');
    }
}

/// The first `k` lines of `t` starting at `i`, rejoined with single
/// newlines: lines end at a newline or at a carriage return followed by a
/// newline, the line ending itself is not part of any line, and the final
/// line's ending (the `k`-th, or a terminator at the very end of `t`) is
/// dropped with everything after it.
pub open spec fn sample_join(t: Seq<char>, i: int, k: int) -> Seq<char>
    decreases t.len() - i,
{
    if i < 0 || i >= t.len() {
        Seq::empty()
    } else if t[i] == '\n' {
        if k <= 1 || i + 1 == t.len() {
            Seq::empty()
        } else {
            seq!['\n'] + sample_join(t, i + 1, k - 1)
        }
    } else if t[i] == '\r' && i + 1 < t.len() && t[i + 1] == '\n' {
        sample_join(t, i + 1, k)
    } else {
        seq![t[i]] + sample_join(t, i + 1, k)
    }
}

/// The first line of `t`: its content, without any line ending.
pub open spec fn first_line(t: Seq<char>) -> Seq<char> {
    sample_join(t, 0, 1)
}

/// The classifier's sample: the first ten lines of `t`, rejoined.
pub open spec fn sample(t: Seq<char>) -> Seq<char> {
    sample_join(t, 0, 10)
}

/// What a shebang first line decides, if anything: the interpreter named in
/// it, with `python2` taking priority over `python3`, and both over a bare
/// `python`.
pub open spec fn shebang_class(fl: Seq<char>) -> Option<PythonVersion> {
    if fl.len() >= 2 && fl[0] == '#' && fl[1] == '!' {
        if contains_seq(fl, "python2"@) {
            Some(PythonVersion::Python2)
        } else if contains_seq(fl, "python3"@) {
            Some(PythonVersion::Python3)
        } else if contains_seq(fl, "python"@) {
            Some(PythonVersion::Python)
        } else {
            None
        }
    } else {
        None
    }
}

pub open spec fn b2i(b: bool) -> int {
    if b {
        1
    } else {
        0
    }
}

/// Count of Python 2 signals in the sample: a `print` statement form, a use
/// of `xrange`, a call of `unicode(`.
pub open spec fn py2_score(t: Seq<char>) -> int {
    b2i(contains_spaced(t, "print"@)) + b2i(contains_seq(t, "xrange"@)) + b2i(
        contains_seq(t, "unicode("@),
    )
}

/// Count of Python 3 signals in the sample: a `print(` call form, an
/// f-string prefix, an `async` keyword.
pub open spec fn py3_score(t: Seq<char>) -> int {
    b2i(contains_seq(t, "print("@)) + b2i(
        contains_seq(t, "f'"@) || contains_seq(t, "f\""@),
    ) + b2i(contains_spaced(t, "async"@))
}

/// The dialect the signal counts decide: the strictly higher count wins and
/// a tie is generic Python.
pub open spec fn score_class(t: Seq<char>) -> PythonVersion {
    if py2_score(t) > py3_score(t) {
        PythonVersion::Python2
    } else if py3_score(t) > py2_score(t) {
        PythonVersion::Python3
    } else {
        PythonVersion::Python
    }
}

/// The whole classification rule: a recognised shebang decides; otherwise
/// the signal counts over the first ten lines do.
pub open spec fn classify(content: Seq<char>) -> PythonVersion {
    match shebang_class(first_line(content)) {
        Some(v) => v,
        None => score_class(sample(content)),
    }
}

/// The rejoined sample of at most `limit` lines of `text`.
fn build_sample(text: &Vec<char>, limit: usize) -> (r: Vec<char>)
    requires
        limit >= 1,
    ensures
        r@ == sample_join(text@, 0, limit as int),
{
    let n = text.len();
    let mut out: Vec<char> = Vec::new();
    let mut i: usize = 0;
    let mut k: usize = limit;
    proof {
        assert(Seq::<char>::empty() + sample_join(text@, 0, limit as int) =~= sample_join(
            text@,
            0,
            limit as int,
        ));
    }
    loop
        invariant
            i <= n,
            n == text@.len(),
            k >= 1,
            sample_join(text@, 0, limit as int) == out@ + sample_join(
                text@,
                i as int,
                k as int,
            ),
        decreases n - i,
    {
        if i >= n {
            proof {
                assert(out@ + Seq::<char>::empty() =~= out@);
            }
            return out;
        }
        let c = text[i];
        if c == '\n' {
            if k == 1 || i + 1 == n {
                proof {
                    assert(out@ + Seq::<char>::empty() =~= out@);
                }
                return out;
            }
            let ghost out0 = out@;
            out.push('\n');
            proof {
                assert(out0 + (seq!['\n'] + sample_join(text@, i + 1, k - 1)) =~= out0.push('\n')
                    + sample_join(text@, i + 1, k - 1));
            }
            k = k - 1;
            i = i + 1;
        } else if c == '\r' && i + 1 < n && text[i + 1] == '\n' {
            i = i + 1;
        } else {
            let ghost out0 = out@;
            out.push(c);
            proof {
                assert(out0 + (seq![text@[i as int]] + sample_join(text@, i + 1, k as int))
                    =~= out0.push(text@[i as int]) + sample_join(text@, i + 1, k as int));
            }
            i = i + 1;
        }
    }
}

/// Classifies script text by the rule of `classify`. Reading the script off
/// disk is the caller's affair; this takes its content.
pub fn detect_python_version(content: &str) -> (v: PythonVersion)
    ensures
        v == classify(content@),
{
    let text = chars_of(content);
    let fl = build_sample(&text, 1);
    if fl.len() >= 2 {
        let c0 = fl[0];
        let c1 = fl[1];
        if c0 == '#' && c1 == '!' {
            if contains_lit(&fl, "python2") {
                return PythonVersion::Python2;
            }
            if contains_lit(&fl, "python3") {
                return PythonVersion::Python3;
            }
            if contains_lit(&fl, "python") {
                return PythonVersion::Python;
            }
        }
    }
    let smp = build_sample(&text, 10);
    let mut py2: u32 = 0;
    let mut py3: u32 = 0;
    if contains_lit_spaced(&smp, "print") {
        py2 = py2 + 1;
    }
    if contains_lit(&smp, "xrange") {
        py2 = py2 + 1;
    }
    if contains_lit(&smp, "unicode(") {
        py2 = py2 + 1;
    }
    if contains_lit(&smp, "print(") {
        py3 = py3 + 1;
    }
    if contains_lit(&smp, "f'") || contains_lit(&smp, "f\"") {
        py3 = py3 + 1;
    }
    if contains_lit_spaced(&smp, "async") {
        py3 = py3 + 1;
    }
    if py2 > py3 {
        PythonVersion::Python2
    } else if py3 > py2 {
        PythonVersion::Python3
    } else {
        PythonVersion::Python
    }
}

/// A script whose first line is the usual `env python3` shebang is
/// classified as Python 3, whatever the rest of its content holds.
pub proof fn lemma_env_python3_shebang(content: Seq<char>)
    requires
        first_line(content) == "#!/usr/bin/env python3"@,
    ensures
        classify(content) == PythonVersion::Python3,
{
    reveal_strlit("#!/usr/bin/env python3");
    reveal_strlit("python2");
    reveal_strlit("python3");
    let fl = first_line(content);
    assert(fl.len() == 22);
    assert(fl[0] == '#' && fl[1] == '!');
    assert(is_sub_at(fl, "python3"@, 15)) by {
        assert(fl.subrange(15, 22) =~= "python3"@);
    }
    assert(!contains_seq(fl, "python2"@)) by {
        assert forall|i: int| !is_sub_at(fl, "python2"@, i) by {
            if 0 <= i && i + 7 <= 22 {
                assert(fl[i + 6] != '2');
                if fl.subrange(i, i + 7) == "python2"@ {
                    assert(fl.subrange(i, i + 7)[6] == fl[i + 6]);
                }
            }
        }
    }
}

} // verus!
