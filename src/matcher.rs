use vstd::prelude::*;

use regex::Error as RegexError;


verus! {

/// The compiled form of a route template.
#[verifier::external_type_specification]
#[verifier::external_body]
pub struct ExRegex(regex::Regex);

/// Why the regex engine refused a pattern.
#[verifier::external_type_specification]
#[verifier::external_body]
pub struct ExRegexError(RegexError);

/// The characters that have a meaning in a regex.
pub open spec fn is_meta_character(c: char) -> bool {
    c == '\\' || c == '.' || c == '+' || c == '*' || c == '?' || c == '(' || c == ')' || c == '|'
        || c == '[' || c == ']' || c == '{' || c == '}' || c == '^' || c == '$' || c == '#'
        || c == '&' || c == '-' || c == '~'
}

/// The pattern that `regex::escape` makes of a literal: each meta character
/// gets a backslash before it, every other character stands as it is.
pub open spec fn regex_escape(s: Seq<char>) -> Seq<char>
    decreases s.len(),
{
    if s.len() == 0 {
        Seq::empty()
    } else if is_meta_character(s.last()) {
        regex_escape(s.drop_last()) + seq!['\\', s.last()]
    } else {
        regex_escape(s.drop_last()).push(s.last())
    }
}

/// Whether `regex::Regex::new` accepts a pattern.
pub uninterp spec fn regex_accepts(pattern: Seq<char>) -> bool;

/// What `regex::Regex::captures` finds of `pattern` in `text`: `None` where
/// it does not match, else each group's text, group 0 first.
pub uninterp spec fn regex_captures(pattern: Seq<char>, text: Seq<char>) -> Option<
    Seq<Option<Seq<char>>>,
>;

/// Relies on `regex::escape` (regex-syntax's `escape_into`): a backslash
/// before each character of `is_meta_character`.
#[verifier::external_body]
fn escape_literal(s: &str) -> (r: String)
    ensures
        r@ == regex_escape(s@),
{
    regex::escape(s)
}

/// A regex together with the pattern it was compiled from. Only
/// `compile_regex` builds one, so `re` is always `source` compiled.
pub struct Matcher {
    source: String,
    re: regex::Regex,
}

impl Matcher {
    /// The pattern this matcher was compiled from.
    pub closed spec fn pattern(&self) -> Seq<char> {
        self.source@
    }
}

/// Relies on `regex::Regex::new`: whether it accepts a pattern depends on
/// the pattern alone.
#[verifier::external_body]
pub(crate) fn compile_regex(pattern: String) -> (r: Result<Matcher, RegexError>)
    ensures
        r is Ok <==> regex_accepts(pattern@),
        r matches Ok(m) ==> m.pattern() == pattern@,
{
    match regex::Regex::new(&pattern) {
        Ok(re) => Ok(Matcher { source: pattern, re }),
        Err(e) => Err(e),
    }
}

/// The text of each group of a match, `None` for a group that took no part.
pub open spec fn group_texts(v: Seq<Option<String>>) -> Seq<Option<Seq<char>>> {
    v.map_values(|g: Option<String>| match g {
        Some(t) => Some(t@),
        None => None,
    })
}

/// Relies on `regex::Regex::captures` and `Captures::iter`: the groups of the
/// leftmost match, group 0 (the whole match) first.
#[verifier::external_body]
fn captures_of(m: &Matcher, text: &str) -> (r: Option<Vec<Option<String>>>)
    ensures
        match regex_captures(m.pattern(), text@) {
            None => r is None,
            Some(gs) => r matches Some(v) && group_texts(v@) == gs,
        },
{
    match m.re.captures(text) {
        None => None,
        Some(c) => Some(c.iter().map(|g| g.map(|x| x.as_str().to_string())).collect()),
    }
}

impl Matcher {
    /// The groups of `text` under this matcher, group 0 first, or `None`
    /// where it does not match.
    pub fn captures(&self, text: &str) -> (r: Option<Vec<Option<String>>>)
        ensures
            match regex_captures(self.pattern(), text@) {
                None => r is None,
                Some(gs) => r matches Some(v) && group_texts(v@) == gs,
            },
    {
        captures_of(self, text)
    }
}


/// A character that may stand in a parameter name.
pub open spec fn is_name_char(c: char) -> bool {
    ('a' <= c && c <= 'z') || ('A' <= c && c <= 'Z') || ('0' <= c && c <= '9')
}

/// The pattern that matches one parameter value: one or more
/// non-whitespace characters.
pub open spec fn group_pattern() -> Seq<char> {
    "(\\S+)"@
}

/// Where a left-to-right reading of a template stands: the pattern built so
/// far, the parameter names met so far, the pending literal text, the name of
/// the parameter being read (if one is), and whether the template has
/// already turned out malformed.
pub struct TemplateScan {
    pub pattern: Seq<char>,
    pub names: Seq<Seq<char>>,
    pub lit: Seq<char>,
    pub param: Option<Seq<char>>,
    pub failed: bool,
}

/// Reads one more character of a template. A `:` opens a parameter and may
/// stand only at the start of a path segment; the parameter's name is one or
/// more ASCII letters and digits and runs to the next `/` or the end.
pub open spec fn scan_step(st: TemplateScan, c: char) -> TemplateScan {
    if st.failed {
        st
    } else {
        match st.param {
            Some(name) => if is_name_char(c) {
                TemplateScan { param: Some(name.push(c)), ..st }
            } else if c == '/' && name.len() > 0 {
                TemplateScan {
                    pattern: st.pattern + group_pattern(),
                    names: st.names.push(name),
                    lit: seq!['/'],
                    param: None,
                    failed: false,
                }
            } else {
                TemplateScan { failed: true, ..st }
            },
            None => if c == ':' {
                if st.lit.len() == 0 || st.lit.last() == '/' {
                    TemplateScan {
                        pattern: st.pattern + regex_escape(st.lit),
                        lit: Seq::empty(),
                        param: Some(Seq::empty()),
                        ..st
                    }
                } else {
                    TemplateScan { failed: true, ..st }
                }
            } else {
                TemplateScan { lit: st.lit.push(c), ..st }
            },
        }
    }
}

/// The reading of a whole template.
pub open spec fn scan_template(t: Seq<char>) -> TemplateScan
    decreases t.len(),
{
    if t.len() == 0 {
        TemplateScan {
            pattern: Seq::empty(),
            names: Seq::empty(),
            lit: Seq::empty(),
            param: None,
            failed: false,
        }
    } else {
        scan_step(scan_template(t.drop_last()), t.last())
    }
}

/// A full-text match of `p`.
pub open spec fn anchored(p: Seq<char>) -> Seq<char> {
    seq!['^'] + p + seq!['$']
}

/// The pattern and the ordered parameter names of a template, or `None` if
/// it is malformed.
pub open spec fn compile_template(t: Seq<char>) -> Option<(Seq<char>, Seq<Seq<char>>)> {
    let st = scan_template(t);
    if st.failed {
        None
    } else {
        match st.param {
            Some(name) => if name.len() == 0 {
                None
            } else {
                Some((anchored(st.pattern + group_pattern()), st.names.push(name)))
            },
            None => Some((anchored(st.pattern + regex_escape(st.lit)), st.names)),
        }
    }
}

/// Whether no name occurs twice.
pub open spec fn distinct(names: Seq<Seq<char>>) -> bool {
    forall|i: int, j: int| 0 <= i < j < names.len() ==> names[i] != names[j]
}

/// The text of a list of strings.
pub open spec fn texts(v: Seq<String>) -> Seq<Seq<char>> {
    v.map_values(|s: String| s@)
}

/// Once a template has turned out malformed, reading on does not mend it.
proof fn lemma_failed_stays(t: Seq<char>, n: int)
    requires
        0 <= n <= t.len(),
        scan_template(t.subrange(0, n)).failed,
    ensures
        scan_template(t).failed,
    decreases t.len(),
{
    if n < t.len() {
        assert(t.drop_last().subrange(0, n) =~= t.subrange(0, n));
        lemma_failed_stays(t.drop_last(), n);
    } else {
        assert(t.subrange(0, n) =~= t);
    }
}

/// Splits a template into its pattern and its ordered parameter names.
pub fn parse_template(t: &str) -> (r: Option<(String, Vec<String>)>)
    ensures
        match compile_template(t@) {
            None => r is None,
            Some((p, ns)) => r matches Some(x) && x.0@ == p && texts(x.1@) == ns,
        },
{
    let n = t.unicode_len();
    let mut pattern = String::new();
    let mut names: Vec<String> = Vec::new();
    let mut lit_start: usize = 0;
    let mut in_param = false;
    let mut param_start: usize = 0;
    let mut i: usize = 0;
    assert(t@.subrange(0, 0) =~= Seq::<char>::empty());
    while i < n
        invariant
            n == t@.len(),
            i <= n,
            lit_start <= i,
            param_start <= i,
            ({
                let st = scan_template(t@.subrange(0, i as int));
                &&& !st.failed
                &&& st.pattern == pattern@
                &&& st.names == texts(names@)
                &&& in_param ==> st.lit.len() == 0 && st.param == Some(
                    t@.subrange(param_start as int, i as int),
                )
                &&& !in_param ==> st.param is None && st.lit == t@.subrange(lit_start as int, i as int)
            }),
        decreases n - i,
    {
        let c = t.get_char(i);
        let ghost pre = t@.subrange(0, i as int);
        let ghost st = scan_template(pre);
        assert(t@.subrange(0, i + 1).drop_last() =~= pre);
        if in_param {
            if ('a' <= c && c <= 'z') || ('A' <= c && c <= 'Z') || ('0' <= c && c <= '9') {
                assert(t@.subrange(param_start as int, i + 1) =~= t@.subrange(param_start as int, i as int).push(c));
            } else if c == '/' && i > param_start {
                let name = String::from_str(t.substring_char(param_start, i));
                pattern.append("(\\S+)");
                let ghost before = names@;
                names.push(name);
                assert(texts(names@) =~= texts(before).push(name@));
                in_param = false;
                lit_start = i;
                assert(t@.subrange(i as int, i + 1) =~= seq!['/']);
            } else {
                proof {
                    lemma_failed_stays(t@, i + 1);
                }
                return None;
            }
        } else {
            if c == ':' {
                if i == lit_start || t.get_char(i - 1) == '/' {
                    let lit = escape_literal(t.substring_char(lit_start, i));
                    pattern.append(lit.as_str());
                    in_param = true;
                    param_start = i + 1;
                    assert(t@.subrange(param_start as int, i + 1) =~= Seq::<char>::empty());
                } else {
                    proof {
                        lemma_failed_stays(t@, i + 1);
                    }
                    return None;
                }
            } else {
                assert(t@.subrange(lit_start as int, i + 1) =~= t@.subrange(lit_start as int, i as int).push(c));
            }
        }
        i = i + 1;
    }
    assert(t@.subrange(0, n as int) =~= t@);
    if in_param {
        if param_start == n {
            return None;
        }
        let name = String::from_str(t.substring_char(param_start, n));
        pattern.append("(\\S+)");
        let ghost before = names@;
        names.push(name);
        assert(texts(names@) =~= texts(before).push(name@));
    } else {
        let lit = escape_literal(t.substring_char(lit_start, n));
        pattern.append(lit.as_str());
    }
    let mut full = String::from_str("^");
    full.append(pattern.as_str());
    full.append("$");
    proof {
        reveal_strlit("^");
        reveal_strlit("$");
    }
    Some((full, names))
}

} // verus!
