//! Text groundwork for the calendar format: physical-line splitting,
//! continuation-line unfolding, value unescaping, and the decomposition of a
//! logical line into name, parameters and value. Each transformation is
//! specified as a small state machine folded over its input, exactly as the
//! format is read in one pass.

use vstd::prelude::*;

verus! {

/// The characters of a string, in order.
pub fn chars_of(s: &str) -> (r: Vec<char>)
    ensures
        r@ == s@,
{
    let n = s.unicode_len();
    let mut r: Vec<char> = Vec::new();
    let mut i: usize = 0;
    while i < n
        invariant
            i <= n,
            n == s@.len(),
            r@ == s@.take(i as int),
        decreases n - i,
    {
        r.push(s.get_char(i));
        proof {
            assert(r@ =~= s@.take(i + 1));
        }
        i = i + 1;
    }
    proof {
        assert(r@ =~= s@);
    }
    r
}

/// Relies on `FromIterator<char> for String`: collecting characters yields
/// the string made of exactly those characters in order.
#[verifier::external_body]
pub fn string_from_chars(v: &Vec<char>) -> (r: String)
    ensures
        r@ == v@,
{
    v.iter().collect()
}

/// Whether the characters equal the characters of `s`.
pub fn chars_eq_str(v: &Vec<char>, s: &str) -> (r: bool)
    ensures
        r == (v@ == s@),
{
    let n = s.unicode_len();
    if v.len() != n {
        proof {
            assert(v@ != s@);
        }
        return false;
    }
    let mut i: usize = 0;
    while i < n
        invariant
            i <= n,
            n == s@.len(),
            v@.len() == n,
            forall|k: int| 0 <= k < i ==> v@[k] == s@[k],
        decreases n - i,
    {
        if v[i] != s.get_char(i) {
            proof {
                assert(v@ != s@);
            }
            return false;
        }
        i = i + 1;
    }
    proof {
        assert(v@ =~= s@);
    }
    true
}

/// The views of a sequence of character vectors.
pub open spec fn lines_view(v: Seq<Vec<char>>) -> Seq<Seq<char>> {
    v.map_values(|l: Vec<char>| l@)
}

pub open spec fn strip_cr(l: Seq<char>) -> Seq<char> {
    if l.len() > 0 && l.last() == '\r' {
        l.drop_last()
    } else {
        l
    }
}

/// State while cutting the document into physical lines: the finished lines
/// and the one being read.
pub struct LineSplit {
    pub done: Seq<Seq<char>>,
    pub cur: Seq<char>,
}

/// One character of line splitting: a newline finishes the current line
/// (dropping one carriage return before it, the format's line terminator
/// being CRLF); any other character extends it.
pub open spec fn split_step(st: LineSplit, c: char) -> LineSplit {
    if c == '\n' {
        LineSplit { done: st.done.push(strip_cr(st.cur)), cur: Seq::empty() }
    } else {
        LineSplit { done: st.done, cur: st.cur.push(c) }
    }
}

pub open spec fn split_run(s: Seq<char>) -> LineSplit
    decreases s.len(),
{
    if s.len() == 0 {
        LineSplit { done: Seq::empty(), cur: Seq::empty() }
    } else {
        split_step(split_run(s.drop_last()), s.last())
    }
}

/// The physical lines of the document: terminators are dropped, and a final
/// unterminated line counts as a line.
pub open spec fn spec_split_lines(s: Seq<char>) -> Seq<Seq<char>> {
    let st = split_run(s);
    if st.cur.len() == 0 {
        st.done
    } else {
        st.done.push(strip_cr(st.cur))
    }
}

pub fn split_lines(text: &Vec<char>) -> (r: Vec<Vec<char>>)
    ensures
        lines_view(r@) == spec_split_lines(text@),
{
    let mut done: Vec<Vec<char>> = Vec::new();
    let mut cur: Vec<char> = Vec::new();
    let mut i: usize = 0;
    while i < text.len()
        invariant
            i <= text@.len(),
            lines_view(done@) == split_run(text@.take(i as int)).done,
            cur@ == split_run(text@.take(i as int)).cur,
        decreases text@.len() - i,
    {
        proof {
            assert(text@.take(i + 1).drop_last() =~= text@.take(i as int));
        }
        let c = text[i];
        if c == '\n' {
            if cur.len() > 0 && cur[cur.len() - 1] == '\r' {
                cur.pop();
            }
            proof {
                assert(cur@ == strip_cr(split_run(text@.take(i as int)).cur));
            }
            done.push(cur);
            cur = Vec::new();
            proof {
                assert(lines_view(done@) =~= split_run(text@.take(i + 1)).done);
            }
        } else {
            cur.push(c);
            proof {
                assert(lines_view(done@) =~= split_run(text@.take(i + 1)).done);
            }
        }
        i = i + 1;
    }
    proof {
        assert(text@.take(text@.len() as int) =~= text@);
    }
    if cur.len() > 0 {
        if cur[cur.len() - 1] == '\r' {
            cur.pop();
        }
        done.push(cur);
        proof {
            assert(lines_view(done@) =~= spec_split_lines(text@));
        }
    }
    done
}

/// One physical line of unfolding: a line beginning with a space or tab is a
/// continuation and is appended (minus that one character) to the previous
/// logical line; without a previous line it stands as it is.
pub open spec fn unfold_step(acc: Seq<Seq<char>>, line: Seq<char>) -> Seq<Seq<char>> {
    if line.len() > 0 && (line[0] == ' ' || line[0] == '\t') && acc.len() > 0 {
        acc.update(acc.len() - 1, acc.last() + line.drop_first())
    } else {
        acc.push(line)
    }
}

pub open spec fn unfold_run(lines: Seq<Seq<char>>) -> Seq<Seq<char>>
    decreases lines.len(),
{
    if lines.len() == 0 {
        Seq::empty()
    } else {
        unfold_step(unfold_run(lines.drop_last()), lines.last())
    }
}

pub fn unfold_lines(lines: &Vec<Vec<char>>) -> (r: Vec<Vec<char>>)
    ensures
        lines_view(r@) == unfold_run(lines_view(lines@)),
{
    let mut acc: Vec<Vec<char>> = Vec::new();
    let mut i: usize = 0;
    while i < lines.len()
        invariant
            i <= lines@.len(),
            lines_view(acc@) == unfold_run(lines_view(lines@).take(i as int)),
        decreases lines@.len() - i,
    {
        proof {
            assert(lines_view(lines@).take(i + 1).drop_last() =~= lines_view(lines@).take(
                i as int,
            ));
            assert(lines_view(lines@).take(i + 1).last() == lines@[i as int]@);
        }
        let line = &lines[i];
        let cont = line.len() > 0 && (line[0] == ' ' || line[0] == '\t');
        if cont && acc.len() > 0 {
            let mut last = acc.pop().unwrap();
            let mut j: usize = 1;
            let ghost last0 = last@;
            while j < line.len()
                invariant
                    1 <= j <= line@.len(),
                    last@ == last0 + line@.subrange(1, j as int),
                decreases line@.len() - j,
            {
                last.push(line[j]);
                proof {
                    assert(last@ =~= last0 + line@.subrange(1, j + 1));
                }
                j = j + 1;
            }
            proof {
                assert(line@.drop_first() =~= line@.subrange(1, line@.len() as int));
            }
            acc.push(last);
            proof {
                assert(lines_view(acc@) =~= unfold_run(lines_view(lines@).take(i + 1)));
            }
        } else {
            let mut copy: Vec<char> = Vec::new();
            let mut j: usize = 0;
            while j < line.len()
                invariant
                    j <= line@.len(),
                    copy@ == line@.take(j as int),
                decreases line@.len() - j,
            {
                copy.push(line[j]);
                proof {
                    assert(copy@ =~= line@.take(j + 1));
                }
                j = j + 1;
            }
            proof {
                assert(copy@ =~= line@);
            }
            acc.push(copy);
            proof {
                assert(lines_view(acc@) =~= unfold_run(lines_view(lines@).take(i + 1)));
            }
        }
        i = i + 1;
    }
    proof {
        assert(lines_view(lines@).take(lines@.len() as int) =~= lines_view(lines@));
    }
    acc
}

/// State while decoding value escapes: the output so far, and whether a
/// backslash is pending.
pub struct EscapeSt {
    pub out: Seq<char>,
    pub esc: bool,
}

/// One character of unescaping: `\n` and `\N` decode to a newline, `\,`,
/// `\;` and `\\` to the bare character; an unknown escape is kept verbatim,
/// backslash included.
pub open spec fn unescape_step(st: EscapeSt, c: char) -> EscapeSt {
    if !st.esc {
        if c == '\\' {
            EscapeSt { out: st.out, esc: true }
        } else {
            EscapeSt { out: st.out.push(c), esc: false }
        }
    } else {
        if c == 'n' || c == 'N' {
            EscapeSt { out: st.out.push('\n'), esc: false }
        } else if c == ',' || c == ';' || c == '\\' {
            EscapeSt { out: st.out.push(c), esc: false }
        } else {
            EscapeSt { out: st.out.push('\\').push(c), esc: false }
        }
    }
}

pub open spec fn unescape_run(s: Seq<char>) -> EscapeSt
    decreases s.len(),
{
    if s.len() == 0 {
        EscapeSt { out: Seq::empty(), esc: false }
    } else {
        unescape_step(unescape_run(s.drop_last()), s.last())
    }
}

/// The decoded form of a property value; a trailing lone backslash is kept.
pub open spec fn spec_unescape(s: Seq<char>) -> Seq<char> {
    let st = unescape_run(s);
    if st.esc {
        st.out.push('\\')
    } else {
        st.out
    }
}

pub fn unescape(v: &Vec<char>) -> (r: Vec<char>)
    ensures
        r@ == spec_unescape(v@),
{
    let mut out: Vec<char> = Vec::new();
    let mut esc = false;
    let mut i: usize = 0;
    while i < v.len()
        invariant
            i <= v@.len(),
            out@ == unescape_run(v@.take(i as int)).out,
            esc == unescape_run(v@.take(i as int)).esc,
        decreases v@.len() - i,
    {
        proof {
            assert(v@.take(i + 1).drop_last() =~= v@.take(i as int));
        }
        let c = v[i];
        if !esc {
            if c == '\\' {
                esc = true;
            } else {
                out.push(c);
            }
        } else {
            if c == 'n' || c == 'N' {
                out.push('\n');
            } else if c == ',' || c == ';' || c == '\\' {
                out.push(c);
            } else {
                out.push('\\');
                out.push(c);
            }
            esc = false;
        }
        i = i + 1;
    }
    proof {
        assert(v@.take(v@.len() as int) =~= v@);
    }
    if esc {
        out.push('\\');
    }
    out
}

/// Where in a logical line the reader stands: in the property name, in a
/// parameter name or value, or past the colon in the property value.
pub enum ClPhase {
    InName,
    InParamName,
    InParamValue,
    InValue,
}

/// State while decomposing a logical line.
pub struct ClSt {
    pub phase: ClPhase,
    pub name: Seq<char>,
    pub params: Seq<(Seq<char>, Seq<char>)>,
    pub pname: Seq<char>,
    pub pval: Seq<char>,
    pub value: Seq<char>,
}

/// A decomposed logical line: `NAME[;PARAM=VALUE...]:VALUE`.
pub struct ClView {
    pub name: Seq<char>,
    pub params: Seq<(Seq<char>, Seq<char>)>,
    pub value: Seq<char>,
}

/// One character of logical-line decomposition. The first unquoted-by-this
/// reader `:` begins the value; `;` separates parameters; `=` separates a
/// parameter name from its value; a parameter without `=` gets an empty
/// value.
pub open spec fn cl_step(st: ClSt, c: char) -> ClSt {
    match st.phase {
        ClPhase::InName => {
            if c == ';' {
                ClSt { phase: ClPhase::InParamName, ..st }
            } else if c == ':' {
                ClSt { phase: ClPhase::InValue, ..st }
            } else {
                ClSt { name: st.name.push(c), ..st }
            }
        },
        ClPhase::InParamName => {
            if c == '=' {
                ClSt { phase: ClPhase::InParamValue, ..st }
            } else if c == ';' {
                ClSt {
                    params: st.params.push((st.pname, st.pval)),
                    pname: Seq::empty(),
                    pval: Seq::empty(),
                    ..st
                }
            } else if c == ':' {
                ClSt {
                    phase: ClPhase::InValue,
                    params: st.params.push((st.pname, st.pval)),
                    pname: Seq::empty(),
                    pval: Seq::empty(),
                    ..st
                }
            } else {
                ClSt { pname: st.pname.push(c), ..st }
            }
        },
        ClPhase::InParamValue => {
            if c == ';' {
                ClSt {
                    phase: ClPhase::InParamName,
                    params: st.params.push((st.pname, st.pval)),
                    pname: Seq::empty(),
                    pval: Seq::empty(),
                    ..st
                }
            } else if c == ':' {
                ClSt {
                    phase: ClPhase::InValue,
                    params: st.params.push((st.pname, st.pval)),
                    pname: Seq::empty(),
                    pval: Seq::empty(),
                    ..st
                }
            } else {
                ClSt { pval: st.pval.push(c), ..st }
            }
        },
        ClPhase::InValue => ClSt { value: st.value.push(c), ..st },
    }
}

pub open spec fn cl_init() -> ClSt {
    ClSt {
        phase: ClPhase::InName,
        name: Seq::empty(),
        params: Seq::empty(),
        pname: Seq::empty(),
        pval: Seq::empty(),
        value: Seq::empty(),
    }
}

pub open spec fn cl_run(s: Seq<char>) -> ClSt
    decreases s.len(),
{
    if s.len() == 0 {
        cl_init()
    } else {
        cl_step(cl_run(s.drop_last()), s.last())
    }
}

/// The decomposition of a logical line, or nothing for a line without a
/// colon, which carries no value and is ignored.
pub open spec fn spec_content_line(s: Seq<char>) -> Option<ClView> {
    let st = cl_run(s);
    if st.phase is InValue {
        Some(ClView { name: st.name, params: st.params, value: st.value })
    } else {
        None
    }
}

/// A decomposed logical line, executable form.
pub struct ContentLine {
    pub name: Vec<char>,
    pub params: Vec<(Vec<char>, Vec<char>)>,
    pub value: Vec<char>,
}

impl View for ContentLine {
    type V = ClView;

    open spec fn view(&self) -> ClView {
        ClView {
            name: self.name@,
            params: self.params@.map_values(|p: (Vec<char>, Vec<char>)| (p.0@, p.1@)),
            value: self.value@,
        }
    }
}

pub open spec fn params_view(p: Seq<(Vec<char>, Vec<char>)>) -> Seq<(Seq<char>, Seq<char>)> {
    p.map_values(|q: (Vec<char>, Vec<char>)| (q.0@, q.1@))
}

pub fn content_line(line: &Vec<char>) -> (r: Option<ContentLine>)
    ensures
        (match r {
            Some(cl) => spec_content_line(line@) == Some(cl@),
            None => spec_content_line(line@) is None,
        }),
{
    let mut in_name = true;
    let mut in_pname = false;
    let mut in_pval = false;
    let mut in_value = false;
    let mut name: Vec<char> = Vec::new();
    let mut params: Vec<(Vec<char>, Vec<char>)> = Vec::new();
    let mut pname: Vec<char> = Vec::new();
    let mut pval: Vec<char> = Vec::new();
    let mut value: Vec<char> = Vec::new();
    let mut i: usize = 0;
    while i < line.len()
        invariant
            i <= line@.len(),
            in_name == (cl_run(line@.take(i as int)).phase is InName),
            in_pname == (cl_run(line@.take(i as int)).phase is InParamName),
            in_pval == (cl_run(line@.take(i as int)).phase is InParamValue),
            in_value == (cl_run(line@.take(i as int)).phase is InValue),
            name@ == cl_run(line@.take(i as int)).name,
            params_view(params@) == cl_run(line@.take(i as int)).params,
            pname@ == cl_run(line@.take(i as int)).pname,
            pval@ == cl_run(line@.take(i as int)).pval,
            value@ == cl_run(line@.take(i as int)).value,
        decreases line@.len() - i,
    {
        proof {
            assert(line@.take(i + 1).drop_last() =~= line@.take(i as int));
        }
        let c = line[i];
        if in_name {
            if c == ';' {
                in_name = false;
                in_pname = true;
            } else if c == ':' {
                in_name = false;
                in_value = true;
            } else {
                name.push(c);
            }
        } else if in_pname {
            if c == '=' {
                in_pname = false;
                in_pval = true;
            } else if c == ';' {
                params.push((pname, pval));
                pname = Vec::new();
                pval = Vec::new();
                proof {
                    assert(params_view(params@) =~= cl_run(line@.take(i + 1)).params);
                }
            } else if c == ':' {
                params.push((pname, pval));
                pname = Vec::new();
                pval = Vec::new();
                in_pname = false;
                in_value = true;
                proof {
                    assert(params_view(params@) =~= cl_run(line@.take(i + 1)).params);
                }
            } else {
                pname.push(c);
            }
        } else if in_pval {
            if c == ';' {
                params.push((pname, pval));
                pname = Vec::new();
                pval = Vec::new();
                in_pval = false;
                in_pname = true;
                proof {
                    assert(params_view(params@) =~= cl_run(line@.take(i + 1)).params);
                }
            } else if c == ':' {
                params.push((pname, pval));
                pname = Vec::new();
                pval = Vec::new();
                in_pval = false;
                in_value = true;
                proof {
                    assert(params_view(params@) =~= cl_run(line@.take(i + 1)).params);
                }
            } else {
                pval.push(c);
            }
        } else {
            value.push(c);
        }
        i = i + 1;
    }
    proof {
        assert(line@.take(line@.len() as int) =~= line@);
    }
    if in_value {
        Some(ContentLine { name, params, value })
    } else {
        None
    }
}

/// The value of the first parameter named `key`, if any.
pub open spec fn spec_param_value(params: Seq<(Seq<char>, Seq<char>)>, key: Seq<char>) -> Option<
    Seq<char>,
>
    decreases params.len(),
{
    if params.len() == 0 {
        None
    } else if params.first().0 == key {
        Some(params.first().1)
    } else {
        spec_param_value(params.drop_first(), key)
    }
}

pub fn param_value(params: &Vec<(Vec<char>, Vec<char>)>, key: &str) -> (r: Option<Vec<char>>)
    ensures
        (match r {
            Some(v) => spec_param_value(params_view(params@), key@) == Some(v@),
            None => spec_param_value(params_view(params@), key@) is None,
        }),
{
    let mut i: usize = 0;
    proof {
        assert(params_view(params@).skip(0) =~= params_view(params@));
    }
    while i < params.len()
        invariant
            i <= params@.len(),
            spec_param_value(params_view(params@), key@) == spec_param_value(
                params_view(params@).skip(i as int),
                key@,
            ),
        decreases params@.len() - i,
    {
        proof {
            assert(params_view(params@).skip(i as int).drop_first() =~= params_view(params@).skip(
                i + 1,
            ));
            assert(params_view(params@).skip(i as int).first() == params_view(params@)[i as int]);
        }
        if chars_eq_str(&params[i].0, key) {
            let mut out: Vec<char> = Vec::new();
            let src = &params[i].1;
            let mut j: usize = 0;
            while j < src.len()
                invariant
                    j <= src@.len(),
                    out@ == src@.take(j as int),
                decreases src@.len() - j,
            {
                out.push(src[j]);
                proof {
                    assert(out@ =~= src@.take(j + 1));
                }
                j = j + 1;
            }
            proof {
                assert(out@ =~= src@);
            }
            return Some(out);
        }
        i = i + 1;
    }
    None
}

} // verus!

