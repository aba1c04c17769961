//! The knowledge base: `kb://` references resolved under a root directory,
//! rule files split into front matter and body, and templates rendered with
//! variables and today's date.

use vstd::prelude::*;

use crate::chars::{find_chars, first_occurrence, lemma_occurrence_skip, occurs_at};
use crate::error::{DocliError, ErrorCode};
use crate::inspect::{sort_seq, sort_strings};
use crate::markup::{decimal, push_decimal};
use crate::text::{chars_of, concat_message, push_all_chars, push_str_chars, string_from_chars};

verus! {

/// `base` joined with `p` as a path: `p` itself when it is absolute or
/// `base` is empty, else the two with one separator between them.
pub open spec fn join_path(base: Seq<char>, p: Seq<char>) -> Seq<char> {
    if p.len() > 0 && p[0] == '/' {
        p
    } else if base.len() == 0 {
        p
    } else if base.last() == '/' {
        base + p
    } else {
        base + "/"@ + p
    }
}

/// Where a `kb://` reference points: `templates/docli/<rest>` under the root.
pub open spec fn kb_path(root: Seq<char>, uri: Seq<char>) -> Option<Seq<char>> {
    if uri.len() >= 5 && uri.subrange(0, 5) == "kb://"@ {
        Some(join_path(join_path(join_path(root, "templates"@), "docli"@), uri.subrange(5, uri.len() as int)))
    } else {
        None
    }
}

/// `base` joined with `p` as a path.
pub fn join(base: &str, p: &str) -> (r: String)
    ensures
        r@ == join_path(base@, p@),
{
    let b = chars_of(base);
    let q = chars_of(p);
    let mut out: Vec<char> = Vec::new();
    if q.len() > 0 && q[0] == '/' {
        push_all_chars(&mut out, &q);
    } else if b.len() == 0 {
        push_all_chars(&mut out, &q);
    } else {
        push_all_chars(&mut out, &b);
        if b[b.len() - 1] != '/' {
            out.push('/');
        }
        push_all_chars(&mut out, &q);
    }
    proof {
        reveal_strlit("/");
    }
    assert(out@ =~= join_path(base@, p@));
    string_from_chars(&out)
}

/// Whether something exists at `path`. Calls `std::path::Path::exists`.
#[verifier::external_body]
fn path_exists(path: &str) -> bool {
    std::path::Path::new(path).exists()
}

/// Resolves `kb://` references under a root directory.
#[derive(Debug)]
pub struct KbResolver {
    kb_root: String,
}

impl KbResolver {
    pub closed spec fn root(&self) -> Seq<char> {
        self.kb_root@
    }

    /// A resolver rooted at `kb_root`.
    pub fn new(kb_root: &str) -> (r: KbResolver)
        ensures
            r.root() == kb_root@,
    {
        KbResolver { kb_root: String::from_str(kb_root) }
    }

    /// The root a resolver takes from the environment: `DOCLI_KB_ROOT` when
    /// set (`root_var`), else `.config/docli/kb` under `HOME` (`home_var`,
    /// `/tmp` when unset).
    pub open spec fn env_root(root_var: Option<Seq<char>>, home_var: Option<Seq<char>>) -> Seq<char> {
        match root_var {
            Some(r) => r,
            None => {
                let home = match home_var {
                    Some(h) => h,
                    None => "/tmp"@,
                };
                join_path(join_path(join_path(home, ".config"@), "docli"@), "kb"@)
            },
        }
    }

    /// A resolver rooted as the environment says, given the values of
    /// `DOCLI_KB_ROOT` and `HOME`.
    pub fn from_vars(root_var: Option<&str>, home_var: Option<&str>) -> (r: KbResolver)
        ensures
            r.root() == Self::env_root(
                match root_var {
                    Some(v) => Some(v@),
                    None => None,
                },
                match home_var {
                    Some(v) => Some(v@),
                    None => None,
                },
            ),
    {
        match root_var {
            Some(v) => KbResolver::new(v),
            None => {
                let home = match home_var {
                    Some(h) => h,
                    None => "/tmp",
                };
                let a = join(home, ".config");
                let b = join(a.as_str(), "docli");
                let c = join(b.as_str(), "kb");
                KbResolver { kb_root: c }
            },
        }
    }

    /// The root directory.
    pub fn kb_root(&self) -> (r: &str)
        ensures
            r@ == self.root(),
    {
        self.kb_root.as_str()
    }

    /// Where `uri` would be found: `templates/docli/<rest>` under the root for
    /// `kb://<rest>`; a reference without that scheme is not found.
    pub fn candidate_path(&self, uri: &str) -> (r: Result<String, DocliError>)
        ensures
            match kb_path(self.root(), uri@) {
                Some(p) => r matches Ok(s) && s@ == p,
                None => r matches Err(e) && e.view_pair() == (ErrorCode::RefNotFound, uri@),
            },
    {
        let cs = chars_of(uri);
        proof {
            reveal_strlit("kb://");
        }
        let prefixed = cs.len() >= 5 && cs[0] == 'k' && cs[1] == 'b' && cs[2] == ':' && cs[3] == '/' && cs[4] == '/';
        if !prefixed {
            if cs.len() >= 5 {
                assert(cs@.subrange(0, 5)[0] == cs@[0]);
                assert(cs@.subrange(0, 5)[1] == cs@[1]);
                assert(cs@.subrange(0, 5)[2] == cs@[2]);
                assert(cs@.subrange(0, 5)[3] == cs@[3]);
                assert(cs@.subrange(0, 5)[4] == cs@[4]);
            }
            return Err(DocliError::RefNotFound { reference: String::from_str(uri) });
        }
        assert(cs@.subrange(0, 5) =~= "kb://"@);
        let mut rest: Vec<char> = Vec::new();
        let mut i: usize = 5;
        while i < cs.len()
            invariant
                5 <= i <= cs.len(),
                rest@ == cs@.subrange(5, i as int),
            decreases cs.len() - i,
        {
            rest.push(cs[i]);
            i = i + 1;
            assert(rest@ =~= cs@.subrange(5, i as int));
        }
        let templates = join(self.kb_root.as_str(), "templates");
        let docli = join(templates.as_str(), "docli");
        let rest_string = string_from_chars(&rest);
        Ok(join(docli.as_str(), rest_string.as_str()))
    }

    /// The path of `uri` when something exists there; a reference without
    /// the `kb://` scheme or to nothing is not found.
    pub fn resolve(&self, uri: &str) -> (r: Result<String, DocliError>)
        ensures
            match kb_path(self.root(), uri@) {
                Some(p) => (r matches Ok(s) && s@ == p) || (r matches Err(e) && e.view_pair() == (
                    ErrorCode::RefNotFound,
                    uri@,
                )),
                None => r matches Err(e) && e.view_pair() == (ErrorCode::RefNotFound, uri@),
            },
    {
        let path = self.candidate_path(uri)?;
        if path_exists(path.as_str()) {
            Ok(path)
        } else {
            Err(DocliError::RefNotFound { reference: String::from_str(uri) })
        }
    }
}

/// What `serde_yaml` reports when `content` does not parse as YAML, or
/// `None` when it does.
pub uninterp spec fn yaml_error(content: Seq<char>) -> Option<Seq<char>>;

/// The text of the error `serde_yaml::from_str::<serde_yaml::Value>` gives
/// for `content`, or `None` when it parses.
#[verifier::external_body]
fn yaml_value_error(content: &str) -> (r: Option<String>)
    ensures
        match yaml_error(content@) {
            Some(e) => r matches Some(s) && s@ == e,
            None => r is None,
        },
{
    serde_yaml::from_str::<serde_yaml::Value>(content).err().map(|e| e.to_string())
}

/// The failure recorded for the YAML file at `rel` (below the templates
/// directory) holding `content`: its `kb://` reference and the parse error,
/// or `None` when it parses.
pub fn yaml_failure(rel: &str, content: &str) -> (r: Option<(String, String)>)
    ensures
        match yaml_error(content@) {
            Some(e) => r matches Some(p) && p.0@ == "kb://"@ + rel@ && p.1@ == e,
            None => r is None,
        },
{
    match yaml_value_error(content) {
        Some(e) => {
            let mut uri: Vec<char> = Vec::new();
            push_str_chars(&mut uri, "kb://");
            push_str_chars(&mut uri, rel);
            Some((string_from_chars(&uri), e))
        },
        None => None,
    }
}

/// A rule file's front matter and body: what lies between a leading `---`
/// line and the next `---` line, and what follows that line.
pub open spec fn front_matter_split(content: Seq<char>) -> Option<(Seq<char>, Seq<char>)> {
    if content.len() >= 4 && content.subrange(0, 4) == "---\n"@ {
        let rest = content.subrange(4, content.len() as int);
        match first_occurrence(rest, "\n---\n"@) {
            Some(e) => Some((rest.subrange(0, e), rest.subrange(e + 5, rest.len() as int))),
            None => None,
        }
    } else {
        None
    }
}

/// A rule file written as `---`, front matter without line breaks, `---`
/// and a body splits back into that front matter and that body.
pub proof fn law_front_matter_round_trip(front: Seq<char>, body: Seq<char>)
    requires
        !front.contains('\n'),
    ensures
        front_matter_split("---\n"@ + front + "\n---\n"@ + body) == Some((front, body)),
{
    reveal_strlit("---\n");
    reveal_strlit("\n---\n");
    let content = "---\n"@ + front + "\n---\n"@ + body;
    let rest = front + "\n---\n"@ + body;
    let needle = "\n---\n"@;
    assert(content.subrange(0, 4) =~= "---\n"@);
    assert(content.subrange(4, content.len() as int) =~= rest);
    assert forall|j: int| 0 <= j < front.len() implies !occurs_at(rest, needle, j) by {
        assert(rest[j] == front[j]);
        if occurs_at(rest, needle, j) {
            assert(rest.subrange(j, j + 5)[0] == rest[j]);
            assert(front.contains(front[j]));
        }
    }
    lemma_occurrence_skip(rest, needle, 0, front.len() as int);
    assert(rest.subrange(front.len() as int, front.len() + 5int) =~= needle);
    assert(rest.subrange(0, front.len() as int) =~= front);
    assert(rest.subrange(front.len() + 5int, rest.len() as int) =~= body);
}

/// Whether a template sees `date` as given does not depend on the day it is
/// rendered: a caller's `date` is never replaced.
pub proof fn law_given_date_kept(vars: Seq<(Seq<char>, Seq<char>)>, day1: Seq<char>, day2: Seq<char>)
    requires
        names_date(vars),
    ensures
        template_context(vars, day1) == template_context(vars, day2),
        with_date(vars, day1) == vars,
{
}

fn copy_range(v: &Vec<char>, from: usize, to: usize) -> (r: Vec<char>)
    requires
        from <= to <= v.len(),
    ensures
        r@ == v@.subrange(from as int, to as int),
{
    let mut out: Vec<char> = Vec::new();
    let mut i = from;
    while i < to
        invariant
            from <= i <= to <= v.len(),
            out@ == v@.subrange(from as int, i as int),
        decreases to - i,
    {
        out.push(v[i]);
        i = i + 1;
        assert(out@ =~= v@.subrange(from as int, i as int));
    }
    out
}

/// Splits a rule file into its YAML front matter and its body.
pub fn split_front_matter(content: &str) -> (r: Option<(String, String)>)
    ensures
        match front_matter_split(content@) {
            Some((f, b)) => r matches Some(x) && x.0@ == f && x.1@ == b,
            None => r is None,
        },
{
    let cs = chars_of(content);
    proof {
        reveal_strlit("---\n");
    }
    let opens = cs.len() >= 4 && cs[0] == '-' && cs[1] == '-' && cs[2] == '-' && cs[3] == '\n';
    if !opens {
        if cs.len() >= 4 {
            assert(cs@.subrange(0, 4)[0] == cs@[0]);
            assert(cs@.subrange(0, 4)[1] == cs@[1]);
            assert(cs@.subrange(0, 4)[2] == cs@[2]);
            assert(cs@.subrange(0, 4)[3] == cs@[3]);
        }
        return None;
    }
    assert(cs@.subrange(0, 4) =~= "---\n"@);
    let rest = copy_range(&cs, 4, cs.len());
    let marker = chars_of("\n---\n");
    proof {
        reveal_strlit("\n---\n");
    }
    let end = match find_chars(&rest, &marker) {
        Some(e) => e,
        None => {
            return None;
        },
    };
    let rest_len = rest.len();
    assert(crate::chars::occurs_at(rest@, marker@, end as int));
    assert(end + 5 <= rest_len);
    let front = copy_range(&rest, 0, end);
    let body = copy_range(&rest, end + 5, rest.len());
    Some((string_from_chars(&front), string_from_chars(&body)))
}

/// `a - b`, or 0 when `b` is larger.
pub open spec fn sub_or_zero(a: int, b: int) -> int {
    if a >= b {
        a - b
    } else {
        0
    }
}

/// The civil date `days` days after 1970-01-01, as year, month and day, by
/// the era-based day count of the proleptic Gregorian calendar.
pub open spec fn civil_from_days(days: int) -> (int, int, int) {
    let z = days + 719468;
    let era = z / 146097;
    let doe = z % 146097;
    let yoe = sub_or_zero(doe - doe / 1460 + doe / 36524, doe / 146096) / 365;
    let y = yoe + era * 400;
    let doy = sub_or_zero(doe, 365 * yoe + yoe / 4 - yoe / 100);
    let mp = (5 * doy + 2) / 153;
    let d = sub_or_zero(doy, (153 * mp + 2) / 5) + 1;
    let m = if mp < 10 {
        mp + 3
    } else {
        mp - 9
    };
    (if m <= 2 {
        y + 1
    } else {
        y
    }, m, d)
}

/// `n` in decimal, with leading zeros up to `width` digits.
pub open spec fn padded(n: nat, width: nat) -> Seq<char>
    decreases width,
{
    if decimal(n).len() >= width {
        decimal(n)
    } else {
        "0"@ + padded(n, (width - 1) as nat)
    }
}

/// The date `days` days after 1970-01-01 as `YYYY-MM-DD`.
pub open spec fn date_text(days: int) -> Seq<char> {
    let (y, m, d) = civil_from_days(days);
    padded(y as nat, 4) + "-"@ + padded(m as nat, 2) + "-"@ + padded(d as nat, 2)
}

/// Appends `n` with leading zeros up to `width` digits.
fn push_padded(out: &mut Vec<char>, n: u64, width: usize)
    ensures
        final(out)@ == old(out)@ + padded(n as nat, width as nat),
    decreases width,
{
    let mut digits: Vec<char> = Vec::new();
    push_decimal(&mut digits, n);
    assert(digits@ =~= decimal(n as nat));
    if digits.len() >= width {
        push_all_chars(out, &digits);
    } else {
        let ghost start = out@;
        out.push('0');
        push_padded(out, n, width - 1);
        proof {
            reveal_strlit("0");
        }
        assert(out@ =~= start + padded(n as nat, width as nat));
    }
}

/// The date `days` days after 1970-01-01 as `YYYY-MM-DD`.
pub fn civil_date(days: u64) -> (r: String)
    requires
        days < 0x1_0000_0000_0000,
    ensures
        r@ == date_text(days as int),
{
    let z: u64 = days + 719468;
    let era = z / 146097;
    let doe = z % 146097;
    let a = doe - doe / 1460 + doe / 36524;
    let b = doe / 146096;
    let yoe = (if a >= b { a - b } else { 0 }) / 365;
    let y = yoe + era * 400;
    let c = 365 * yoe + yoe / 4 - yoe / 100;
    let doy = if doe >= c { doe - c } else { 0 };
    let mp = (5 * doy + 2) / 153;
    let e = (153 * mp + 2) / 5;
    let d = (if doy >= e { doy - e } else { 0 }) + 1;
    let m = if mp < 10 { mp + 3 } else { mp - 9 };
    let year = if m <= 2 { y + 1 } else { y };
    let mut out: Vec<char> = Vec::new();
    push_padded(&mut out, year, 4);
    out.push('-');
    push_padded(&mut out, m, 2);
    out.push('-');
    push_padded(&mut out, d, 2);
    proof {
        reveal_strlit("-");
    }
    assert(out@ =~= date_text(days as int));
    string_from_chars(&out)
}

/// Whole seconds since 1970-01-01 UTC, by the system clock. Calls
/// `SystemTime::now` and `duration_since(UNIX_EPOCH)`; a clock set before
/// the epoch gives 0.
#[verifier::external_body]
fn unix_seconds() -> u64 {
    std::time::SystemTime::now().duration_since(std::time::UNIX_EPOCH).unwrap_or_default().as_secs()
}

/// Today's date (UTC) as `YYYY-MM-DD`.
pub fn today_date() -> (r: String)
    ensures
        exists|days: int| 0 <= days < 0x1_0000_0000_0000 && r@ == date_text(days),
{
    let days = unix_seconds() / 86400;
    civil_date(days)
}

/// A hexadecimal digit.
pub open spec fn hex_digit(n: int) -> char {
    if n < 10 {
        ((n + 48) as u32) as char
    } else {
        ((n + 87) as u32) as char
    }
}

/// How a character stands in a JSON string.
pub open spec fn json_char(c: char) -> Seq<char> {
    if c == '"' {
        seq!['\\', '"']
    } else if c == '\\' {
        seq!['\\', '\\']
    } else if (c as u32) < 0x20 {
        seq!['\\', 'u', '0', '0', hex_digit(((c as u32) / 16) as int), hex_digit(((c as u32) % 16) as int)]
    } else {
        seq![c]
    }
}

pub open spec fn json_chars(s: Seq<char>) -> Seq<char>
    decreases s.len(),
{
    if s.len() == 0 {
        Seq::empty()
    } else {
        json_chars(s.drop_last()) + json_char(s.last())
    }
}

/// `s` as a JSON string literal.
pub open spec fn json_string(s: Seq<char>) -> Seq<char> {
    "\""@ + json_chars(s) + "\""@
}

/// The members of a JSON object: each name as a string, a colon, its value.
pub open spec fn json_members(vars: Seq<(Seq<char>, Seq<char>)>) -> Seq<char>
    decreases vars.len(),
{
    if vars.len() == 0 {
        Seq::empty()
    } else if vars.len() == 1 {
        json_string(vars[0].0) + ":"@ + vars[0].1
    } else {
        json_members(vars.drop_last()) + ","@ + json_string(vars.last().0) + ":"@ + vars.last().1
    }
}

pub open spec fn names_date(vars: Seq<(Seq<char>, Seq<char>)>) -> bool {
    exists|i: int| 0 <= i < vars.len() && (#[trigger] vars[i]).0 == "date"@
}

/// The variables a template sees: those given, and `date` set to `today`
/// unless given.
pub open spec fn with_date(vars: Seq<(Seq<char>, Seq<char>)>, today: Seq<char>) -> Seq<(Seq<char>, Seq<char>)> {
    if names_date(vars) {
        vars
    } else {
        vars.push(("date"@, json_string(today)))
    }
}

/// The JSON object of the variables a template sees.
pub open spec fn template_context(vars: Seq<(Seq<char>, Seq<char>)>, today: Seq<char>) -> Seq<char> {
    "{"@ + json_members(with_date(vars, today)) + "}"@
}

/// What `minijinja` renders for `content` against the JSON object `context`
/// (as `serde_json` reads it), or the text of the error.
pub uninterp spec fn minijinja_render(content: Seq<char>, context: Seq<char>) -> Result<Seq<char>, Seq<char>>;

/// Renders `content` as a minijinja template against the JSON object
/// `context`. Calls `serde_json::from_str`, then `Environment::add_template`
/// and `Template::render`.
#[verifier::external_body]
fn render_with_minijinja(content: &str, context: &str) -> (r: Result<String, String>)
    ensures
        match minijinja_render(content@, context@) {
            Ok(t) => r matches Ok(s) && s@ == t,
            Err(e) => r matches Err(s) && s@ == e,
        },
{
    let ctx: serde_json::Value = serde_json::from_str(context).map_err(|e| e.to_string())?;
    let mut env = minijinja::Environment::new();
    env.add_template("t", content).map_err(|e| e.to_string())?;
    env.get_template("t").map_err(|e| e.to_string())?.render(&ctx).map_err(|e| e.to_string())
}

pub open spec fn vars_view(v: Seq<(String, String)>) -> Seq<(Seq<char>, Seq<char>)> {
    v.map_values(|p: (String, String)| (p.0@, p.1@))
}

/// Appends `s` as a JSON string literal.
fn push_json_string(out: &mut Vec<char>, s: &str)
    ensures
        final(out)@ == old(out)@ + json_string(s@),
{
    let ghost start = out@;
    let cs = chars_of(s);
    out.push('"');
    let mut i: usize = 0;
    assert(cs@.subrange(0, 0) =~= Seq::<char>::empty());
    while i < cs.len()
        invariant
            0 <= i <= cs.len(),
            cs@ == s@,
            out@ == start + seq!['"'] + json_chars(cs@.subrange(0, i as int)),
        decreases cs.len() - i,
    {
        let c = cs[i];
        let ghost before = out@;
        if c == '"' {
            out.push('\\');
            out.push('"');
        } else if c == '\\' {
            out.push('\\');
            out.push('\\');
        } else if (c as u32) < 0x20 {
            let v = c as u32;
            out.push('\\');
            out.push('u');
            out.push('0');
            out.push('0');
            out.push(if v / 16 < 10 { ((v / 16 + 48) as u8) as char } else { ((v / 16 + 87) as u8) as char });
            out.push(if v % 16 < 10 { ((v % 16 + 48) as u8) as char } else { ((v % 16 + 87) as u8) as char });
        } else {
            out.push(c);
        }
        assert(out@ =~= before + json_char(c));
        assert(cs@.subrange(0, i + 1).drop_last() =~= cs@.subrange(0, i as int));
        i = i + 1;
    }
    out.push('"');
    assert(cs@.subrange(0, i as int) =~= cs@);
    proof {
        reveal_strlit("\"");
    }
    assert(out@ =~= start + json_string(s@));
}

/// Whether some variable is named `date`.
fn has_date(vars: &Vec<(String, String)>) -> (r: bool)
    ensures
        r == names_date(vars_view(vars@)),
{
    let ghost vv = vars_view(vars@);
    let mut i: usize = 0;
    while i < vars.len()
        invariant
            0 <= i <= vars.len(),
            vv == vars_view(vars@),
            forall|j: int| 0 <= j < i ==> (#[trigger] vv[j]).0 != "date"@,
        decreases vars.len() - i,
    {
        if crate::bytes::str_eq(vars[i].0.as_str(), "date") {
            assert(vv[i as int].0 == "date"@);
            return true;
        }
        i = i + 1;
    }
    false
}

/// The JSON object of the variables a template sees.
fn context_json(vars: &Vec<(String, String)>, today: &str) -> (r: String)
    ensures
        r@ == template_context(vars_view(vars@), today@),
{
    let ghost vv = vars_view(vars@);
    let mut out: Vec<char> = Vec::new();
    out.push('{');
    let ghost head = out@;
    let mut i: usize = 0;
    assert(vv.subrange(0, 0) =~= Seq::<(Seq<char>, Seq<char>)>::empty());
    while i < vars.len()
        invariant
            0 <= i <= vars.len(),
            vv == vars_view(vars@),
            out@ == head + json_members(vv.subrange(0, i as int)),
        decreases vars.len() - i,
    {
        let ghost before = out@;
        if i > 0 {
            out.push(',');
        }
        push_json_string(&mut out, vars[i].0.as_str());
        out.push(':');
        push_str_chars(&mut out, vars[i].1.as_str());
        assert(vv.subrange(0, i + 1).drop_last() =~= vv.subrange(0, i as int));
        assert(vv.subrange(0, i + 1).last() == vv[i as int]);
        proof {
            reveal_strlit(",");
            reveal_strlit(":");
        }
        assert(out@ =~= head + json_members(vv.subrange(0, i + 1)));
        i = i + 1;
    }
    assert(vv.subrange(0, i as int) =~= vv);
    if !has_date(vars) {
        let ghost before = out@;
        if vars.len() > 0 {
            out.push(',');
        }
        push_json_string(&mut out, "date");
        out.push(':');
        push_json_string(&mut out, today);
        proof {
            reveal_strlit(",");
            reveal_strlit(":");
        }
        assert(vv.push(("date"@, json_string(today@))).drop_last() =~= vv);
        assert(out@ =~= head + json_members(with_date(vv, today@)));
    }
    out.push('}');
    proof {
        reveal_strlit("{");
        reveal_strlit("}");
    }
    assert(out@ =~= template_context(vv, today@));
    string_from_chars(&out)
}

/// What rendering `content` with `vars` on the day `today` gives.
pub open spec fn template_outcome(content: Seq<char>, vars: Seq<(Seq<char>, Seq<char>)>, today: Seq<char>) -> Result<
    Seq<char>,
    Seq<char>,
> {
    minijinja_render(content, template_context(vars, today))
}

/// Renders `content` with the variables `vars` (each a name and the JSON text
/// of its value), `date` set to `today` unless given.
pub fn render_template_on(content: &str, vars: &Vec<(String, String)>, today: &str) -> (r: Result<String, DocliError>)
    ensures
        match template_outcome(content@, vars_view(vars@), today@) {
            Ok(t) => r matches Ok(s) && s@ == t,
            Err(e) => r matches Err(x) && x.view_pair() == (ErrorCode::InvalidSpec, e),
        },
{
    let context = context_json(vars, today);
    match render_with_minijinja(content, context.as_str()) {
        Ok(s) => Ok(s),
        Err(message) => Err(DocliError::InvalidSpec { message }),
    }
}

/// Renders `content` with the variables `vars` (each a name and the JSON text
/// of its value), `date` set to today's date unless given.
pub fn render_template(content: &str, vars: &Vec<(String, String)>) -> (r: Result<String, DocliError>)
    ensures
        exists|days: int|
            0 <= days < 0x1_0000_0000_0000 && match #[trigger] template_outcome(
                content@,
                vars_view(vars@),
                date_text(days),
            ) {
                Ok(t) => r matches Ok(s) && s@ == t,
                Err(e) => r matches Err(x) && x.view_pair() == (ErrorCode::InvalidSpec, e),
            },
        names_date(vars_view(vars@)) ==> forall|today: Seq<char>|
            match #[trigger] template_outcome(content@, vars_view(vars@), today) {
                Ok(t) => r matches Ok(s) && s@ == t,
                Err(e) => r matches Err(x) && x.view_pair() == (ErrorCode::InvalidSpec, e),
            },
{
    if has_date(vars) {
        let r = render_template_on(content, vars, "");
        assert forall|today: Seq<char>| #[trigger] template_context(vars_view(vars@), today) == template_context(
            vars_view(vars@),
            ""@,
        ) by {}
        assert(template_outcome(content@, vars_view(vars@), date_text(0)) == template_outcome(
            content@,
            vars_view(vars@),
            ""@,
        ));
        r
    } else {
        let today = today_date();
        let ghost days = choose|days: int| 0 <= days < 0x1_0000_0000_0000 && today@ == date_text(days);
        let r = render_template_on(content, vars, today.as_str());
        assert(template_outcome(content@, vars_view(vars@), date_text(days)) == template_outcome(
            content@,
            vars_view(vars@),
            today@,
        ));
        r
    }
}

/// A directory entry as a category listing sees it: whether it is a regular
/// file, and its file stem where that is UTF-8.
pub struct KbEntry {
    pub is_file: bool,
    pub stem: Option<String>,
}

/// The stems of the regular files among `entries` that have one, in order.
pub open spec fn file_stems(entries: Seq<KbEntry>) -> Seq<Seq<char>>
    decreases entries.len(),
{
    if entries.len() == 0 {
        Seq::empty()
    } else {
        let e = entries.last();
        file_stems(entries.drop_last()) + match e.stem {
            Some(s) => if e.is_file {
                seq![s@]
            } else {
                Seq::empty()
            },
            None => Seq::empty(),
        }
    }
}

/// The entries of a category: the stems of its regular files, sorted.
pub fn category_entries(entries: &Vec<KbEntry>) -> (r: Vec<String>)
    ensures
        r@.map_values(|s: String| s@) == sort_seq(file_stems(entries@)),
{
    let mut stems: Vec<String> = Vec::new();
    let mut i: usize = 0;
    while i < entries.len()
        invariant
            0 <= i <= entries.len(),
            stems@.map_values(|s: String| s@) == file_stems(entries@.subrange(0, i as int)),
        decreases entries.len() - i,
    {
        let ghost before = stems@.map_values(|s: String| s@);
        assert(entries@.subrange(0, i + 1).drop_last() =~= entries@.subrange(0, i as int));
        let e = &entries[i];
        if e.is_file {
            match &e.stem {
                Some(st) => {
                    stems.push(String::from_str(st.as_str()));
                    assert(stems@.map_values(|s: String| s@) =~= before + seq![st@]);
                },
                None => {
                    assert(stems@.map_values(|s: String| s@) =~= before + Seq::<Seq<char>>::empty());
                },
            }
        } else {
            assert(stems@.map_values(|s: String| s@) =~= before + Seq::<Seq<char>>::empty());
        }
        i = i + 1;
    }
    assert(entries@.subrange(0, entries.len() as int) =~= entries@);
    sort_strings(&stems)
}

} // verus!
