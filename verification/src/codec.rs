//! The codec for the persisted configuration record: a pretty-printed JSON
//! object with one line per field, in a fixed field order. The encoder and
//! the parser are both verified, and parsing an encoded record is proved to
//! give back the record.

use vstd::prelude::*;
use crate::config::{ConfigView, ContainerConfig, Status, status_from_chars, status_of_label,
    lemma_status_label_round_trip};
use crate::errors::DockError;
use crate::python::{lemma_label_round_trip, version_from_chars, version_of_label, PythonVersion};
use crate::text::{chars_of, is_sub_at, lit_matches_at, push_lit, string_from_chars};
use vstd::string::StrSliceExecFns;

verus! {

/// How one character is written inside a JSON string literal: the quote,
/// the backslash and the three common control characters get a two-character
/// escape, everything else stands as itself.
pub open spec fn esc_char(c: char) -> Seq<char> {
    if c == '"' {
        seq!['\\', '"']
    } else if c == '\\' {
        seq!['\\', '\\']
    } else if c == '\n' {
        seq!['\\', 'n']
    } else if c == '\r' {
        seq!['\\', 'r']
    } else if c == '\t' {
        seq!['\\', 't']
    } else {
        seq![c]
    }
}

/// A whole value written inside a JSON string literal.
pub open spec fn esc(v: Seq<char>) -> Seq<char>
    decreases v.len(),
{
    if v.len() == 0 {
        Seq::empty()
    } else {
        esc_char(v[0]) + esc(v.drop_first())
    }
}

/// What the character after a backslash decodes to, if anything.
pub open spec fn unesc_char(c: char) -> Option<char> {
    if c == '"' {
        Some('"')
    } else if c == '\\' {
        Some('\\')
    } else if c == 'n' {
        Some('\n')
    } else if c == 'r' {
        Some('\r')
    } else if c == 't' {
        Some('\t')
    } else {
        None
    }
}

/// Escaping one more character appends its escape.
pub proof fn lemma_esc_snoc(v: Seq<char>, c: char)
    ensures
        esc(v.push(c)) == esc(v) + esc_char(c),
    decreases v.len(),
{
    reveal_with_fuel(esc, 3);
    let w = v.push(c);
    if v.len() == 0 {
        assert(w[0] == c);
        assert(w.drop_first() =~= Seq::<char>::empty());
        assert(esc_char(c) + Seq::<char>::empty() =~= esc_char(c));
        assert(esc(v) + esc_char(c) =~= esc_char(c));
    } else {
        assert(w[0] == v[0]);
        assert(w.drop_first() =~= v.drop_first().push(c));
        lemma_esc_snoc(v.drop_first(), c);
        assert(esc(w) == esc_char(v[0]) + (esc(v.drop_first()) + esc_char(c)));
        assert(esc_char(v[0]) + (esc(v.drop_first()) + esc_char(c)) =~= (esc_char(v[0]) + esc(
            v.drop_first(),
        )) + esc_char(c));
    }
}

/// The decoded value of the string literal that starts at `i` (right after
/// the opening quote), with the position right after the closing quote.
pub open spec fn parse_str_at(t: Seq<char>, i: int) -> Option<(Seq<char>, int)>
    decreases t.len() - i,
{
    if i < 0 || i >= t.len() {
        None
    } else if t[i] == '"' {
        Some((Seq::empty(), i + 1))
    } else if t[i] == '\\' {
        if i + 1 >= t.len() {
            None
        } else {
            match unesc_char(t[i + 1]) {
                None => None,
                Some(c) => match parse_str_at(t, i + 2) {
                    None => None,
                    Some((v, j)) => Some((seq![c] + v, j)),
                },
            }
        }
    } else {
        match parse_str_at(t, i + 1) {
            None => None,
            Some((v, j)) => Some((seq![t[i]] + v, j)),
        }
    }
}

/// Parsing right after an escaped value followed by its closing quote gives
/// back the value.
pub proof fn lemma_parse_esc(t: Seq<char>, i: int, v: Seq<char>)
    requires
        0 <= i,
        i + esc(v).len() + 1 <= t.len(),
        t.subrange(i, i + esc(v).len()) == esc(v),
        t[i + esc(v).len()] == '"',
    ensures
        parse_str_at(t, i) == Some((v, i + esc(v).len() + 1)),
    decreases v.len(),
{
    assert forall|k: int| 0 <= k < esc(v).len() implies t[i + k] == esc(v)[k] by {
        assert(t.subrange(i, i + esc(v).len())[k] == t[i + k]);
    }
    if v.len() == 0 {
        assert(t[i] == '"');
    } else {
        let c = v[0];
        let v1 = v.drop_first();
        let ec = esc_char(c);
        assert(esc(v) == ec + esc(v1));
        let i1 = i + ec.len();
        assert(t.subrange(i1, i1 + esc(v1).len()) =~= esc(v1)) by {
            assert forall|k: int| 0 <= k < esc(v1).len() implies t.subrange(
                i1,
                i1 + esc(v1).len(),
            )[k] == esc(v1)[k] by {
                assert(t[i1 + k] == esc(v)[ec.len() + k]);
                assert(esc(v)[ec.len() + k] == esc(v1)[k]);
            }
        }
        assert(t[i1 + esc(v1).len()] == '"');
        lemma_parse_esc(t, i1, v1);
        assert(seq![c] + v1 =~= v);
        if c == '"' || c == '\\' || c == '\n' || c == '\r' || c == '\t' {
            assert(ec.len() == 2);
            assert(t[i + 0] == esc(v)[0]);
            assert(esc(v)[0] == ec[0]);
            assert(t[i] == '\\');
            assert(t[i + 1] == esc(v)[1]);
            assert(esc(v)[1] == ec[1]);
            assert(unesc_char(ec[1]) == Some(c));
            assert(parse_str_at(t, i + 2) == Some((v1, i1 + esc(v1).len() + 1)));
        } else {
            assert(ec.len() == 1);
            assert(t[i + 0] == esc(v)[0]);
            assert(esc(v)[0] == ec[0]);
            assert(t[i] == c);
            assert(parse_str_at(t, i + 1) == Some((v1, i1 + esc(v1).len() + 1)));
        }
    }
}

/// The fixed fragments of the record's JSON shape.
pub open spec fn l_id() -> Seq<char> {
    "{\n  \"id\": \""@
}

pub open spec fn l_name() -> Seq<char> {
    ",\n  \"name\": \""@
}

pub open spec fn l_script() -> Seq<char> {
    ",\n  \"script\": \""@
}

pub open spec fn l_version() -> Seq<char> {
    ",\n  \"python_version\": \""@
}

pub open spec fn l_status() -> Seq<char> {
    ",\n  \"status\": \""@
}

pub open spec fn l_port() -> Seq<char> {
    ",\n  \"port_mapping\": "@
}

pub open spec fn l_null_end() -> Seq<char> {
    "null\n}"@
}

pub open spec fn l_end() -> Seq<char> {
    "\n}"@
}

/// A field value as it stands in the record: escaped, with the closing
/// quote.
pub open spec fn qf(v: Seq<char>) -> Seq<char> {
    esc(v) + seq!['"']
}

/// The record's persisted form, field by field from the port mapping
/// backwards: each `enc_..._on` is the text from that field's fragment to
/// the end.
pub open spec fn enc_port_on(c: ConfigView) -> Seq<char> {
    l_port() + (match c.port_mapping {
        Some(p) => seq!['"'] + qf(p) + l_end(),
        None => l_null_end(),
    })
}

pub open spec fn enc_status_on(c: ConfigView) -> Seq<char> {
    l_status() + qf(c.status.spec_label()) + enc_port_on(c)
}

pub open spec fn enc_version_on(c: ConfigView) -> Seq<char> {
    l_version() + qf(c.python_version.spec_label()) + enc_status_on(c)
}

pub open spec fn enc_script_on(c: ConfigView) -> Seq<char> {
    l_script() + qf(c.script) + enc_version_on(c)
}

pub open spec fn enc_name_on(c: ConfigView) -> Seq<char> {
    l_name() + qf(c.name) + enc_script_on(c)
}

/// The record's persisted form.
pub open spec fn encoded(c: ConfigView) -> Seq<char> {
    l_id() + qf(c.id) + enc_name_on(c)
}

/// The record a well-formed persisted text denotes, if any: the six fields
/// in their fixed order, with nothing before or after.
pub open spec fn parsed(t: Seq<char>) -> Option<ConfigView> {
    if !is_sub_at(t, l_id(), 0) {
        None
    } else {
        match parse_str_at(t, l_id().len() as int) {
            None => None,
            Some((id, i1)) => if !is_sub_at(t, l_name(), i1) {
                None
            } else {
                match parse_str_at(t, i1 + l_name().len()) {
                    None => None,
                    Some((name, i2)) => if !is_sub_at(t, l_script(), i2) {
                        None
                    } else {
                        match parse_str_at(t, i2 + l_script().len()) {
                            None => None,
                            Some((script, i3)) => if !is_sub_at(t, l_version(), i3) {
                                None
                            } else {
                                match parse_str_at(t, i3 + l_version().len()) {
                                    None => None,
                                    Some((vl, i4)) => match version_of_label(vl) {
                                        None => None,
                                        Some(version) => if !is_sub_at(t, l_status(), i4) {
                                            None
                                        } else {
                                            match parse_str_at(t, i4 + l_status().len()) {
                                                None => None,
                                                Some((sl, i5)) => match status_of_label(sl) {
                                                    None => None,
                                                    Some(status) => if !is_sub_at(
                                                        t,
                                                        l_port(),
                                                        i5,
                                                    ) {
                                                        None
                                                    } else {
                                                        parsed_port(
                                                            t,
                                                            i5 + l_port().len(),
                                                            id,
                                                            name,
                                                            script,
                                                            version,
                                                            status,
                                                        )
                                                    },
                                                },
                                            }
                                        },
                                    },
                                }
                            },
                        }
                    },
                }
            },
        }
    }
}

/// The tail of the record: `null` or a quoted port mapping, then the
/// closing brace, then the end of the text.
pub open spec fn parsed_port(
    t: Seq<char>,
    j: int,
    id: Seq<char>,
    name: Seq<char>,
    script: Seq<char>,
    version: PythonVersion,
    status: Status,
) -> Option<ConfigView> {
    if is_sub_at(t, l_null_end(), j) && j + l_null_end().len() == t.len() {
        Some(
            ConfigView {
                id,
                name,
                script,
                python_version: version,
                status,
                port_mapping: None,
            },
        )
    } else if 0 <= j < t.len() && t[j] == '"' {
        match parse_str_at(t, j + 1) {
            None => None,
            Some((p, k)) => if is_sub_at(t, l_end(), k) && k + l_end().len() == t.len() {
                Some(
                    ConfigView {
                        id,
                        name,
                        script,
                        python_version: version,
                        status,
                        port_mapping: Some(p),
                    },
                )
            } else {
                None
            },
        }
    } else {
        None
    }
}

/// Appends the escaped form of `v`.
fn push_esc(out: &mut Vec<char>, v: &Vec<char>)
    ensures
        final(out)@ == old(out)@ + esc(v@),
{
    let n = v.len();
    let mut i: usize = 0;
    while i < n
        invariant
            n == v@.len(),
            i <= n,
            out@ == old(out)@ + esc(v@.subrange(0, i as int)),
        decreases n - i,
    {
        let ghost prev = out@;
        let c = v[i];
        if c == '"' {
            out.push('\\');
            out.push('"');
        } else if c == '\\' {
            out.push('\\');
            out.push('\\');
        } else if c == '\n' {
            out.push('\\');
            out.push('n');
        } else if c == '\r' {
            out.push('\\');
            out.push('r');
        } else if c == '\t' {
            out.push('\\');
            out.push('t');
        } else {
            out.push(c);
        }
        proof {
            assert(out@ =~= prev + esc_char(v@[i as int]));
            lemma_esc_snoc(v@.subrange(0, i as int), v@[i as int]);
            assert(v@.subrange(0, i + 1) =~= v@.subrange(0, i as int).push(v@[i as int]));
            assert(out@ =~= old(out)@ + esc(v@.subrange(0, i + 1)));
        }
        i = i + 1;
    }
    proof {
        assert(v@.subrange(0, n as int) =~= v@);
    }
}

/// The persisted form of `config`, ready to be written to its config file.
#[verifier::rlimit(100)]
pub fn encode_config(config: &ContainerConfig) -> (r: String)
    ensures
        r@ == encoded(config@),
{
    let mut out: Vec<char> = Vec::new();
    push_lit(&mut out, "{\n  \"id\": \"");
    let idc = chars_of(config.id.as_str());
    push_esc(&mut out, &idc);
    out.push('"');
    push_lit(&mut out, ",\n  \"name\": \"");
    let namec = chars_of(config.name.as_str());
    push_esc(&mut out, &namec);
    out.push('"');
    push_lit(&mut out, ",\n  \"script\": \"");
    let scriptc = chars_of(config.script.as_str());
    push_esc(&mut out, &scriptc);
    out.push('"');
    push_lit(&mut out, ",\n  \"python_version\": \"");
    let versionc = chars_of(config.python_version.label());
    push_esc(&mut out, &versionc);
    out.push('"');
    push_lit(&mut out, ",\n  \"status\": \"");
    let statusc = chars_of(config.status.label());
    push_esc(&mut out, &statusc);
    out.push('"');
    push_lit(&mut out, ",\n  \"port_mapping\": ");
    match &config.port_mapping {
        None => {
            push_lit(&mut out, "null\n}");
        },
        Some(p) => {
            out.push('"');
            let pc = chars_of(p.as_str());
            push_esc(&mut out, &pc);
            out.push('"');
            push_lit(&mut out, "\n}");
        },
    }
    proof {
        assert(out@ =~= encoded(config@));
    }
    string_from_chars(&out)
}

fn unesc_exec(c: char) -> (r: Option<char>)
    ensures
        r == unesc_char(c),
{
    if c == '"' {
        Some('"')
    } else if c == '\\' {
        Some('\\')
    } else if c == 'n' {
        Some('\n')
    } else if c == 'r' {
        Some('\r')
    } else if c == 't' {
        Some('\t')
    } else {
        None
    }
}

/// What a partly decoded literal composes to.
pub open spec fn pstr_compose(acc: Seq<char>, o: Option<(Seq<char>, int)>) -> Option<
    (Seq<char>, int),
> {
    match o {
        None => None,
        Some((v, j)) => Some((acc + v, j)),
    }
}

/// Decodes the string literal that starts at `start` (right after the
/// opening quote).
fn parse_str_body(text: &Vec<char>, start: usize) -> (r: Option<(Vec<char>, usize)>)
    ensures
        match r {
            Some(p) => parse_str_at(text@, start as int) == Some((p.0@, p.1 as int)) && start < p.1
                <= text@.len(),
            None => parse_str_at(text@, start as int) is None,
        },
{
    let n = text.len();
    if start >= n {
        return None;
    }
    let mut acc: Vec<char> = Vec::new();
    let mut i: usize = start;
    proof {
        let o = parse_str_at(text@, start as int);
        if o is Some {
            assert(Seq::<char>::empty() + o.unwrap().0 =~= o.unwrap().0);
        }
    }
    loop
        invariant
            start <= i <= n,
            n == text@.len(),
            parse_str_at(text@, start as int) == pstr_compose(
                acc@,
                parse_str_at(text@, i as int),
            ),
        decreases n - i,
    {
        if i >= n {
            return None;
        }
        let c = text[i];
        if c == '"' {
            proof {
                assert(acc@ + Seq::<char>::empty() =~= acc@);
            }
            return Some((acc, i + 1));
        } else if c == '\\' {
            if i + 1 >= n {
                return None;
            }
            let d = text[i + 1];
            match unesc_exec(d) {
                None => {
                    return None;
                },
                Some(ch) => {
                    let ghost acc0 = acc@;
                    acc.push(ch);
                    proof {
                        let o2 = parse_str_at(text@, i + 2);
                        if o2 is Some {
                            assert((acc0.push(ch)) + o2.unwrap().0 =~= acc0 + (seq![ch]
                                + o2.unwrap().0));
                        }
                    }
                    i = i + 2;
                },
            }
        } else {
            let ghost acc0 = acc@;
            acc.push(c);
            proof {
                let o2 = parse_str_at(text@, i + 1);
                if o2 is Some {
                    assert((acc0.push(c)) + o2.unwrap().0 =~= acc0 + (seq![c] + o2.unwrap().0));
                }
            }
            i = i + 1;
        }
    }
}

/// Reads a persisted record back; text that is not the persisted form of
/// some record is refused as `Parse`.
pub fn parse_config(s: &str) -> (r: Result<ContainerConfig, DockError>)
    ensures
        match r {
            Ok(c) => parsed(s@) == Some(c@),
            Err(e) => parsed(s@) is None && e == DockError::Parse,
        },
{
    let text = chars_of(s);
    if !lit_matches_at(&text, 0, "{\n  \"id\": \"") {
        return Err(DockError::Parse);
    }
    let p0 = "{\n  \"id\": \"".unicode_len();
    let (id_v, i1) = match parse_str_body(&text, p0) {
        None => {
            return Err(DockError::Parse);
        },
        Some(x) => x,
    };
    if !lit_matches_at(&text, i1, ",\n  \"name\": \"") {
        return Err(DockError::Parse);
    }
    let p1 = i1 + ",\n  \"name\": \"".unicode_len();
    let (name_v, i2) = match parse_str_body(&text, p1) {
        None => {
            return Err(DockError::Parse);
        },
        Some(x) => x,
    };
    if !lit_matches_at(&text, i2, ",\n  \"script\": \"") {
        return Err(DockError::Parse);
    }
    let p2 = i2 + ",\n  \"script\": \"".unicode_len();
    let (script_v, i3) = match parse_str_body(&text, p2) {
        None => {
            return Err(DockError::Parse);
        },
        Some(x) => x,
    };
    if !lit_matches_at(&text, i3, ",\n  \"python_version\": \"") {
        return Err(DockError::Parse);
    }
    let p3 = i3 + ",\n  \"python_version\": \"".unicode_len();
    let (vl_v, i4) = match parse_str_body(&text, p3) {
        None => {
            return Err(DockError::Parse);
        },
        Some(x) => x,
    };
    let version = match version_from_chars(&vl_v) {
        None => {
            return Err(DockError::Parse);
        },
        Some(v) => v,
    };
    if !lit_matches_at(&text, i4, ",\n  \"status\": \"") {
        return Err(DockError::Parse);
    }
    let p4 = i4 + ",\n  \"status\": \"".unicode_len();
    let (sl_v, i5) = match parse_str_body(&text, p4) {
        None => {
            return Err(DockError::Parse);
        },
        Some(x) => x,
    };
    let status = match status_from_chars(&sl_v) {
        None => {
            return Err(DockError::Parse);
        },
        Some(v) => v,
    };
    if !lit_matches_at(&text, i5, ",\n  \"port_mapping\": ") {
        return Err(DockError::Parse);
    }
    let j = i5 + ",\n  \"port_mapping\": ".unicode_len();
    let null_hit = lit_matches_at(&text, j, "null\n}");
    let nlen = "null\n}".unicode_len();
    if null_hit && text.len() - j == nlen {
        let config = ContainerConfig {
            id: string_from_chars(&id_v),
            name: string_from_chars(&name_v),
            script: string_from_chars(&script_v),
            python_version: version,
            status,
            port_mapping: None,
        };
        return Ok(config);
    }
    if j < text.len() && text[j] == '"' {
        let (port_v, k) = match parse_str_body(&text, j + 1) {
            None => {
                return Err(DockError::Parse);
            },
            Some(x) => x,
        };
        let elen = "\n}".unicode_len();
        if lit_matches_at(&text, k, "\n}") && text.len() - k == elen {
            let config = ContainerConfig {
                id: string_from_chars(&id_v),
                name: string_from_chars(&name_v),
                script: string_from_chars(&script_v),
                python_version: version,
                status,
                port_mapping: Some(string_from_chars(&port_v)),
            };
            return Ok(config);
        }
        return Err(DockError::Parse);
    }
    Err(DockError::Parse)
}

/// A chunk of a concatenation stands at its offset.
proof fn lemma_chunk(t: Seq<char>, pre: Seq<char>, chunk: Seq<char>, post: Seq<char>)
    requires
        t == pre + chunk + post,
    ensures
        t.subrange(pre.len() as int, pre.len() + chunk.len() as int) == chunk,
        t.len() == pre.len() + chunk.len() + post.len(),
{
    assert(t.subrange(pre.len() as int, pre.len() + chunk.len() as int) =~= chunk);
}

/// Concatenation associates.
proof fn lemma_assoc3(a: Seq<char>, b: Seq<char>, c: Seq<char>)
    ensures
        a + (b + c) == (a + b) + c,
{
    assert(a + (b + c) =~= (a + b) + c);
}

/// The empty sequence is a neutral prefix and suffix.
proof fn lemma_empty_around(a: Seq<char>)
    ensures
        Seq::<char>::empty() + a == a,
        a + Seq::<char>::empty() == a,
{
    assert(Seq::<char>::empty() + a =~= a);
    assert(a + Seq::<char>::empty() =~= a);
}

/// One field of the record: its leading fragment stands right after `pre`,
/// and the string literal after the fragment decodes to the field's value.
proof fn lemma_stage(t: Seq<char>, pre: Seq<char>, lit: Seq<char>, v: Seq<char>, post: Seq<char>)
    requires
        t == pre + (lit + qf(v)) + post,
    ensures
        is_sub_at(t, lit, pre.len() as int),
        parse_str_at(t, (pre.len() + lit.len()) as int) == Some(
            (v, (pre.len() + lit.len() + esc(v).len() + 1) as int),
        ),
        pre.len() + lit.len() + esc(v).len() + 1 + post.len() == t.len(),
{
    let pos = pre.len() as int;
    let w = lit + qf(v);
    lemma_chunk(t, pre, w, post);
    assert(t.subrange(pos, pos + lit.len() as int) =~= lit) by {
        assert forall|k: int| 0 <= k < lit.len() implies t.subrange(
            pos,
            pos + lit.len() as int,
        )[k] == lit[k] by {
            assert(t.subrange(pos, pos + lit.len() as int)[k] == t[pos + k]);
            assert(t.subrange(pos, pos + w.len() as int)[k] == t[pos + k]);
            assert(w[k] == lit[k]);
        }
    }
    let i = pos + lit.len();
    assert(t.subrange(i, i + esc(v).len()) =~= esc(v)) by {
        assert forall|k: int| 0 <= k < esc(v).len() implies t.subrange(i, i + esc(v).len())[k]
            == esc(v)[k] by {
            assert(t.subrange(i, i + esc(v).len())[k] == t[i + k]);
            assert(t.subrange(pos, pos + w.len() as int)[lit.len() + k] == t[pos + (lit.len()
                + k)]);
            assert(w[lit.len() + k] == qf(v)[k]);
        }
    }
    assert(t[i + esc(v).len()] == '"') by {
        let k0 = (lit.len() + esc(v).len()) as int;
        assert(t.subrange(pos, pos + w.len() as int)[k0] == t[pos + k0]);
        assert(w[k0] == qf(v)[esc(v).len() as int]);
    }
    lemma_parse_esc(t, i, v);
}

/// A bare string literal right after `pre` decodes to its value.
proof fn lemma_stage_value(t: Seq<char>, pre: Seq<char>, v: Seq<char>, post: Seq<char>)
    requires
        t == pre + qf(v) + post,
    ensures
        parse_str_at(t, pre.len() as int) == Some((v, (pre.len() + esc(v).len() + 1) as int)),
        pre.len() + esc(v).len() + 1 + post.len() == t.len(),
{
    let pos = pre.len() as int;
    lemma_chunk(t, pre, qf(v), post);
    assert(t.subrange(pos, pos + esc(v).len()) =~= esc(v)) by {
        assert forall|k: int| 0 <= k < esc(v).len() implies t.subrange(pos, pos + esc(v).len())[k]
            == esc(v)[k] by {
            assert(t.subrange(pos, pos + esc(v).len())[k] == t[pos + k]);
            assert(t.subrange(pos, pos + qf(v).len() as int)[k] == t[pos + k]);
        }
    }
    assert(t[pos + esc(v).len()] == '"') by {
        assert(t.subrange(pos, pos + qf(v).len() as int)[esc(v).len() as int] == t[pos + esc(
            v,
        ).len()]);
        assert(qf(v)[esc(v).len() as int] == '"');
    }
    lemma_parse_esc(t, pos, v);
}

/// Cursor positions inside the encoded record: right after each field's
/// string value.
pub open spec fn pos1(c: ConfigView) -> int {
    (l_id().len() + esc(c.id).len() + 1) as int
}

pub open spec fn pos2(c: ConfigView) -> int {
    pos1(c) + l_name().len() + esc(c.name).len() + 1
}

pub open spec fn pos3(c: ConfigView) -> int {
    pos2(c) + l_script().len() + esc(c.script).len() + 1
}

pub open spec fn pos4(c: ConfigView) -> int {
    pos3(c) + l_version().len() + esc(c.python_version.spec_label()).len() + 1
}

pub open spec fn pos5(c: ConfigView) -> int {
    pos4(c) + l_status().len() + esc(c.status.spec_label()).len() + 1
}

pub open spec fn posj(c: ConfigView) -> int {
    pos5(c) + l_port().len() as int
}

/// Where each fragment and each field value stands inside the encoded
/// record.
#[verifier::rlimit(100)]
proof fn lemma_rt_positions(c: ConfigView)
    ensures
        is_sub_at(encoded(c), l_id(), 0),
        parse_str_at(encoded(c), l_id().len() as int) == Some((c.id, pos1(c))),
        is_sub_at(encoded(c), l_name(), pos1(c)),
        parse_str_at(encoded(c), pos1(c) + l_name().len()) == Some((c.name, pos2(c))),
        is_sub_at(encoded(c), l_script(), pos2(c)),
        parse_str_at(encoded(c), pos2(c) + l_script().len()) == Some((c.script, pos3(c))),
        is_sub_at(encoded(c), l_version(), pos3(c)),
        parse_str_at(encoded(c), pos3(c) + l_version().len()) == Some(
            (c.python_version.spec_label(), pos4(c)),
        ),
        is_sub_at(encoded(c), l_status(), pos4(c)),
        parse_str_at(encoded(c), pos4(c) + l_status().len()) == Some(
            (c.status.spec_label(), pos5(c)),
        ),
        is_sub_at(encoded(c), l_port(), pos5(c)),
        c.port_mapping is None ==> is_sub_at(encoded(c), l_null_end(), posj(c)) && posj(c)
            + l_null_end().len() == encoded(c).len(),
        c.port_mapping is Some ==> {
            let p = c.port_mapping.unwrap();
            let k = posj(c) + 1 + esc(p).len() + 1;
            encoded(c)[posj(c)] == '"' && !(is_sub_at(encoded(c), l_null_end(), posj(c)) && posj(
                c,
            ) + l_null_end().len() == encoded(c).len()) && parse_str_at(encoded(c), posj(c) + 1)
                == Some((p, k)) && is_sub_at(encoded(c), l_end(), k) && k + l_end().len()
                == encoded(c).len()
        },
{
    let t = encoded(c);
    let vl = c.python_version.spec_label();
    let sl = c.status.spec_label();
    let c1 = l_id() + qf(c.id);
    assert(pos1(c) == c1.len());
    let c2 = l_name() + qf(c.name);
    let c3 = l_script() + qf(c.script);
    let c4 = l_version() + qf(vl);
    let c5 = l_status() + qf(sl);
    let p1 = Seq::<char>::empty();
    lemma_empty_around(c1 + enc_name_on(c));
    assert(t == p1 + c1 + enc_name_on(c));
    lemma_stage(t, p1, l_id(), c.id, enc_name_on(c));
    let p2 = c1;
    lemma_assoc3(p2, c2, enc_script_on(c));
    assert(t == p2 + c2 + enc_script_on(c));
    lemma_stage(t, p2, l_name(), c.name, enc_script_on(c));
    let p3 = p2 + c2;
    lemma_assoc3(p3, c3, enc_version_on(c));
    assert(t == p3 + c3 + enc_version_on(c));
    lemma_stage(t, p3, l_script(), c.script, enc_version_on(c));
    let p4 = p3 + c3;
    lemma_assoc3(p4, c4, enc_status_on(c));
    assert(t == p4 + c4 + enc_status_on(c));
    lemma_stage(t, p4, l_version(), vl, enc_status_on(c));
    let p5 = p4 + c4;
    lemma_assoc3(p5, c5, enc_port_on(c));
    assert(t == p5 + c5 + enc_port_on(c));
    lemma_stage(t, p5, l_status(), sl, enc_port_on(c));
    let p6 = p5 + c5;
    let i5 = p6.len() as int;
    let tail = match c.port_mapping {
        Some(p) => seq!['"'] + qf(p) + l_end(),
        None => l_null_end(),
    };
    lemma_assoc3(p6, l_port(), tail);
    assert(t == p6 + l_port() + tail);
    lemma_chunk(t, p6, l_port(), tail);
    assert(is_sub_at(t, l_port(), i5)) by {
        assert(t.subrange(i5, i5 + l_port().len() as int) == l_port());
    }
    let q = p6 + l_port();
    let j = q.len() as int;
    match c.port_mapping {
        None => {
            lemma_empty_around(t);
            assert(t == q + l_null_end() + Seq::<char>::empty());
            lemma_chunk(t, q, l_null_end(), Seq::<char>::empty());
            assert(is_sub_at(t, l_null_end(), j)) by {
                assert(t.subrange(j, j + l_null_end().len() as int) == l_null_end());
            }
            assert(j + l_null_end().len() == t.len());
        },
        Some(p) => {
            reveal_strlit("null\n}");
            lemma_assoc3(q, seq!['"'] + qf(p), l_end());
            assert(t == q + (seq!['"'] + qf(p)) + l_end());
            lemma_assoc3(seq!['"'], qf(p), l_end());
            lemma_assoc3(q, seq!['"'], qf(p) + l_end());
            assert(t == q + seq!['"'] + (qf(p) + l_end()));
            lemma_chunk(t, q, seq!['"'], qf(p) + l_end());
            assert(t[j] == '"') by {
                assert(t.subrange(j, j + 1) == seq!['"']);
                assert(t.subrange(j, j + 1)[0] == t[j]);
            }
            assert(!(is_sub_at(t, l_null_end(), j) && j + l_null_end().len() == t.len())) by {
                if is_sub_at(t, l_null_end(), j) {
                    assert(t.subrange(j, j + l_null_end().len() as int)[0] == t[j]);
                    assert(l_null_end()[0] == 'n');
                }
            }
            let q2 = q + seq!['"'];
            lemma_assoc3(q2, qf(p), l_end());
            assert(t == q2 + qf(p) + l_end());
            lemma_stage_value(t, q2, p, l_end());
            let k = (q2.len() + esc(p).len() + 1) as int;
            let q3 = q2 + qf(p);
            lemma_empty_around(t);
            lemma_assoc3(q2, qf(p), l_end());
            assert(t == q3 + l_end() + Seq::<char>::empty());
            lemma_chunk(t, q3, l_end(), Seq::<char>::empty());
            assert(is_sub_at(t, l_end(), k)) by {
                assert(q3.len() == k);
                assert(t.subrange(k, k + l_end().len() as int) == l_end());
            }
            assert(k + l_end().len() == t.len());
        },
    }
}

/// Parsing an encoded record gives back the record, whatever its fields
/// hold: the persisted form loses nothing.
#[verifier::rlimit(100)]
pub proof fn lemma_config_round_trip(c: ConfigView)
    ensures
        parsed(encoded(c)) == Some(c),
{
    let t = encoded(c);
    lemma_rt_positions(c);
    lemma_label_round_trip(c.python_version);
    lemma_status_label_round_trip(c.status);
    match c.port_mapping {
        None => {
            assert(parsed(t) == Some(c));
        },
        Some(p) => {
            assert(parsed(t) == Some(c));
        },
    }
}

} // verus!
