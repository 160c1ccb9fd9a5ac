//! The manifest parser and structure-preserving editor.
//!
//! A manifest is UTF-8 text: a prelude block opened by a line-initial `let`
//! keyword and closed by a line-initial `in` keyword, holding
//! `name = expression;` bindings, followed by a `{ ... }` body holding
//! `"path".publicKeys = expression;` bindings. Expressions may span lines;
//! the parser accumulates continuation lines until the terminating `;`.
//!
//! Parsing is best-effort line-oriented extraction: a prelude binding whose
//! terminator never arrives is dropped, and a body line that does not match
//! the expected shape is skipped, so that one malformed entry does not block
//! access to the rest of the manifest.

use vstd::prelude::*;

use crate::SecretError;
use crate::text::{
    contains_spec, contains_str, ends_with, ends_with_char, find_char, find_char_from,
    find_spec, find_str, is_match, join_strings, join_with, lemma_find_char_from_props,
    lemma_find_from_props, lemma_rfind_char_props, lines_spec, rfind_char, rfind_char_spec,
    split_lines, split_pattern, split_str_spec, starts_with, trim, trim_end_spec, trim_spec,
};

verus! {

/// One binding of the manifest's prelude block.
#[derive(Debug, Clone)]
pub struct GroupDef {
    /// The bound identifier.
    pub name: String,
    /// The raw right-hand-side expression text, terminator stripped.
    pub definition: String,
}

/// The mathematical value of a `GroupDef`.
pub struct GroupDefView {
    pub name: Seq<char>,
    pub definition: Seq<char>,
}

impl View for GroupDef {
    type V = GroupDefView;

    open spec fn view(&self) -> GroupDefView {
        GroupDefView { name: self.name@, definition: self.definition@ }
    }
}

impl DeepView for GroupDef {
    type V = GroupDefView;

    open spec fn deep_view(&self) -> GroupDefView {
        self.view()
    }
}

/// One `"path".publicKeys = expression;` binding of the manifest body.
#[derive(Debug, Clone)]
pub struct SecretEntry {
    /// The manifest-relative path of the encrypted file.
    pub path: String,
    /// The group references obtained by splitting the expression on `++`.
    pub groups: Vec<String>,
    /// The unparsed right-hand-side expression text.
    pub raw_expr: String,
}

/// The mathematical value of a `SecretEntry`.
pub struct SecretEntryView {
    pub path: Seq<char>,
    pub groups: Seq<Seq<char>>,
    pub raw_expr: Seq<char>,
}

impl View for SecretEntry {
    type V = SecretEntryView;

    open spec fn view(&self) -> SecretEntryView {
        SecretEntryView {
            path: self.path@,
            groups: self.groups.deep_view(),
            raw_expr: self.raw_expr@,
        }
    }
}

impl DeepView for SecretEntry {
    type V = SecretEntryView;

    open spec fn deep_view(&self) -> SecretEntryView {
        self.view()
    }
}

/// An immutable snapshot produced by one parse of the manifest text.
#[derive(Debug)]
pub struct ParsedSecrets {
    /// Prelude bindings, in order of appearance.
    pub groups: Vec<GroupDef>,
    /// Body bindings, in order of appearance.
    pub secrets: Vec<SecretEntry>,
}

/// The mathematical value of a `ParsedSecrets`.
pub struct ParsedSecretsView {
    pub groups: Seq<GroupDefView>,
    pub secrets: Seq<SecretEntryView>,
}

impl View for ParsedSecrets {
    type V = ParsedSecretsView;

    open spec fn view(&self) -> ParsedSecretsView {
        ParsedSecretsView { groups: self.groups.deep_view(), secrets: self.secrets.deep_view() }
    }
}

impl DeepView for ParsedSecrets {
    type V = ParsedSecretsView;

    open spec fn deep_view(&self) -> ParsedSecretsView {
        self.view()
    }
}

/// The pattern `\nlet\n` that opens the prelude on a line of its own.
pub open spec fn let_nl() -> Seq<char> {
    seq!['\n', 'l', 'e', 't', '\n']
}

/// The pattern `\nlet ` that opens the prelude with trailing content.
pub open spec fn let_sp() -> Seq<char> {
    seq!['\n', 'l', 'e', 't', ' ']
}

/// The pattern `\nin\n` that closes the prelude on a line of its own.
pub open spec fn in_nl() -> Seq<char> {
    seq!['\n', 'i', 'n', '\n']
}

/// The pattern `\nin ` that closes the prelude with trailing content.
pub open spec fn in_sp() -> Seq<char> {
    seq!['\n', 'i', 'n', ' ']
}

/// The pattern `\nin{` that closes the prelude directly at the body.
pub open spec fn in_br() -> Seq<char> {
    seq!['\n', 'i', 'n', '{']
}

/// The marker `".publicKeys` that follows the quoted path of a body binding.
pub open spec fn pk_marker() -> Seq<char> {
    seq!['"', '.', 'p', 'u', 'b', 'l', 'i', 'c', 'K', 'e', 'y', 's']
}

/// The pattern ` = ` that separates a prelude binding's name and expression.
pub open spec fn eq_pat() -> Seq<char> {
    seq![' ', '=', ' ']
}

/// The group-concatenation operator `++`.
pub open spec fn plus_plus() -> Seq<char> {
    seq!['+', '+']
}

/// The keyword `let`.
pub open spec fn let_kw() -> Seq<char> {
    seq!['l', 'e', 't']
}

/// The text as line-initial matching sees it: one newline imagined before
/// the first line, so that the first line counts as starting a line like
/// every other.
pub open spec fn line_padded(t: Seq<char>) -> Seq<char> {
    seq!['\n'] + t
}

/// Position in `t` of the prelude's opening keyword, found at the start of
/// a line (the file's first line included), if the keyword is present.
pub open spec fn let_start_spec(t: Seq<char>) -> Option<int> {
    match find_spec(line_padded(t), let_nl()) {
        Some(i) => Some(i),
        None => match find_spec(line_padded(t), let_sp()) {
            Some(i) => Some(i),
            None => None,
        },
    }
}

/// Position in `t` of the prelude's closing keyword, found at the start of
/// a line (the file's first line included), if present.
pub open spec fn in_start_spec(t: Seq<char>) -> Option<int> {
    match find_spec(line_padded(t), in_nl()) {
        Some(i) => Some(i),
        None => match find_spec(line_padded(t), in_sp()) {
            Some(i) => Some(i),
            None => match find_spec(line_padded(t), in_br()) {
                Some(i) => Some(i),
                None => None,
            },
        },
    }
}

/// A prelude definition is complete once, ignoring trailing whitespace, it
/// ends with the statement terminator.
pub open spec fn def_complete(d: Seq<char>) -> bool {
    ends_with_char(trim_end_spec(d), ';')
}

/// All trailing `;` characters removed.
pub open spec fn strip_semis(d: Seq<char>) -> Seq<char>
    decreases d.len(),
{
    if ends_with_char(d, ';') {
        strip_semis(d.drop_last())
    } else {
        d
    }
}

/// A raw accumulated definition cleaned for storage: trailing whitespace,
/// then trailing terminators, then surrounding whitespace removed.
pub open spec fn clean_definition(d: Seq<char>) -> Seq<char> {
    trim_spec(strip_semis(trim_end_spec(d)))
}

/// Starting from line `i` with accumulated text `d`, append continuation
/// lines (joined by a newline) until the definition is complete; the result
/// is the index of the final line and the accumulated text, or `None` if the
/// input is exhausted first.
pub open spec fn accumulate_def(lines: Seq<Seq<char>>, i: int, d: Seq<char>) -> Option<(
    int,
    Seq<char>,
)>
    decreases lines.len() - i,
{
    if def_complete(d) {
        Some((i, d))
    } else if 0 <= i && i + 1 < lines.len() {
        accumulate_def(lines, i + 1, d + seq!['\n'] + lines[i + 1])
    } else {
        None
    }
}

/// The line index where an accumulated definition ends never precedes where
/// it starts, and lies within the input.
pub proof fn lemma_accumulate_bounds(lines: Seq<Seq<char>>, i: int, d: Seq<char>)
    requires
        0 <= i,
    ensures
        match accumulate_def(lines, i, d) {
            Some(jd) => i <= jd.0 && (jd.0 < lines.len() || jd.0 == i),
            None => true,
        },
    decreases lines.len() - i,
{
    if def_complete(d) {
    } else if 0 <= i && i + 1 < lines.len() {
        lemma_accumulate_bounds(lines, i + 1, d + seq!['\n'] + lines[i + 1]);
    }
}

/// The prelude bindings discovered from line `i` onward.
pub open spec fn parse_groups_spec(lines: Seq<Seq<char>>, i: int) -> Seq<GroupDefView>
    decreases lines.len() - i,
    via parse_groups_spec_dec
{
    if i < 0 || i >= lines.len() {
        Seq::empty()
    } else {
        let line = trim_spec(lines[i]);
        if is_match(line, let_kw(), 0) || line.len() == 0 {
            parse_groups_spec(lines, i + 1)
        } else {
            match find_spec(line, eq_pat()) {
                None => parse_groups_spec(lines, i + 1),
                Some(eq) => match accumulate_def(lines, i, line.skip(eq + 3)) {
                    None => Seq::empty(),
                    Some(jd) => seq![
                        GroupDefView {
                            name: trim_spec(line.take(eq)),
                            definition: clean_definition(jd.1),
                        },
                    ] + parse_groups_spec(lines, jd.0 + 1),
                },
            }
        }
    }
}

#[via_fn]
proof fn parse_groups_spec_dec(lines: Seq<Seq<char>>, i: int) {
    if 0 <= i < lines.len() {
        let line = trim_spec(lines[i]);
        match find_spec(line, eq_pat()) {
            None => {},
            Some(eq) => {
                lemma_accumulate_bounds(lines, i, line.skip(eq + 3));
            },
        }
    }
}

/// Split pieces trimmed, with empty fragments discarded.
pub open spec fn clean_groups(parts: Seq<Seq<char>>) -> Seq<Seq<char>>
    decreases parts.len(),
{
    if parts.len() == 0 {
        Seq::empty()
    } else {
        let h = trim_spec(parts.first());
        let rest = clean_groups(parts.drop_first());
        if h.len() > 0 {
            seq![h] + rest
        } else {
            rest
        }
    }
}

/// The group references of an expression: the pieces between occurrences of
/// the concatenation operator, trimmed, empty pieces discarded.
pub open spec fn groups_of_expr(expr: Seq<char>) -> Seq<Seq<char>> {
    clean_groups(split_str_spec(expr, plus_plus()))
}

/// The entry denoted by one completed logical line of the body, if the line
/// has the shape `"path".publicKeys = expression;`; a line of another shape
/// denotes no entry.
pub open spec fn entry_of_line(l: Seq<char>) -> Option<SecretEntryView> {
    match find_spec(l, pk_marker()) {
        None => None,
        Some(dot_pk) => match find_char_from(l, '"', 0) {
            None => None,
            Some(oq) => match find_char_from(l, '=', 0) {
                None => None,
                Some(eq) => if oq + 1 <= dot_pk && eq + 1 <= l.len() - 1 {
                    let path = l.subrange(oq + 1, dot_pk);
                    let expr = trim_spec(l.subrange(eq + 1, l.len() - 1));
                    Some(
                        SecretEntryView {
                            path: path,
                            groups: groups_of_expr(expr),
                            raw_expr: expr,
                        },
                    )
                } else {
                    None
                },
            },
        },
    }
}

/// The body entries discovered from line `i` onward, with `cur` the logical
/// line accumulated so far. Blank and comment lines are skipped; other lines
/// are joined by single spaces until the terminator arrives, and a completed
/// logical line that does not match the entry shape is discarded.
pub open spec fn parse_body_spec(lines: Seq<Seq<char>>, i: int, cur: Seq<char>) -> Seq<
    SecretEntryView,
>
    decreases lines.len() - i,
{
    if i < 0 || i >= lines.len() {
        Seq::empty()
    } else {
        let tr = trim_spec(lines[i]);
        if tr.len() == 0 || tr[0] == '#' {
            parse_body_spec(lines, i + 1, cur)
        } else {
            let cur2 = if cur.len() == 0 {
                tr
            } else {
                cur + seq![' '] + tr
            };
            if ends_with_char(cur2, ';') {
                match entry_of_line(cur2) {
                    Some(e) => seq![e] + parse_body_spec(lines, i + 1, Seq::empty()),
                    None => parse_body_spec(lines, i + 1, Seq::empty()),
                }
            } else {
                parse_body_spec(lines, i + 1, cur2)
            }
        }
    }
}

/// The result of parsing manifest text `t`: `None` when the prelude or body
/// delimiters are missing or out of order, else the discovered prelude
/// bindings and body entries.
pub open spec fn spec_parse(t: Seq<char>) -> Option<ParsedSecretsView> {
    match let_start_spec(t) {
        None => None,
        Some(ls) => match in_start_spec(t) {
            None => None,
            Some(ins) => if ins < ls {
                None
            } else {
                match find_char_from(t, '{', ins) {
                    None => None,
                    Some(ob) => match rfind_char_spec(t, '}') {
                        None => None,
                        Some(cb) => if cb < ob + 1 {
                            None
                        } else {
                            Some(
                                ParsedSecretsView {
                                    groups: parse_groups_spec(
                                        lines_spec(t.subrange(ls, ins)),
                                        0,
                                    ),
                                    secrets: parse_body_spec(
                                        lines_spec(t.subrange(ob + 1, cb)),
                                        0,
                                        Seq::empty(),
                                    ),
                                },
                            )
                        },
                    },
                }
            },
        },
    }
}

/// The text has a closing brace for the editor to splice before.
pub open spec fn has_close_brace(t: Seq<char>) -> bool {
    rfind_char_spec(t, '}') is Some
}

/// The single binding line the editor inserts for `path` and `groups`.
pub open spec fn new_entry_line(path: Seq<char>, groups: Seq<Seq<char>>) -> Seq<char> {
    seq![' ', ' ', '"'] + path + pk_marker() + eq_pat() + join_with(
        groups,
        seq![' ', '+', '+', ' '],
    ) + seq![';']
}

/// The text produced by adding an entry: everything before the final closing
/// brace, a newline if one is not already there, the new binding line, the
/// closing brace restored, and the original trailing-newline convention.
pub open spec fn spec_add(t: Seq<char>, path: Seq<char>, groups: Seq<Seq<char>>) -> Seq<char>
    recommends
        has_close_brace(t),
{
    let cb = rfind_char_spec(t, '}').unwrap();
    let before = t.take(cb);
    let with_nl = if ends_with_char(before, '\n') {
        before
    } else {
        before + seq!['\n']
    };
    with_nl + new_entry_line(path, groups) + seq!['\n', '}'] + if ends_with_char(t, '\n') {
        seq!['\n']
    } else {
        Seq::<char>::empty()
    }
}

/// The quoted form of a path, as searched for by the editor's remove.
pub open spec fn quoted(path: Seq<char>) -> Seq<char> {
    seq!['"'] + path + seq!['"']
}

/// The lines kept by removal: once a line containing the quoted path is
/// seen, lines are suppressed through the next line that, ignoring trailing
/// whitespace, ends with the terminator.
pub open spec fn remove_filter(
    ls: Seq<Seq<char>>,
    search: Seq<char>,
    i: int,
    skipping: bool,
) -> Seq<Seq<char>>
    decreases ls.len() - i,
{
    if i < 0 || i >= ls.len() {
        Seq::empty()
    } else {
        let line = ls[i];
        let now_skipping = skipping || contains_spec(line, search);
        if now_skipping {
            let still = !ends_with_char(trim_end_spec(line), ';');
            remove_filter(ls, search, i + 1, still)
        } else {
            seq![line] + remove_filter(ls, search, i + 1, false)
        }
    }
}

/// The text produced by removing the entry for `path`: the kept lines joined
/// by newlines, with the original trailing-newline convention.
pub open spec fn spec_remove(t: Seq<char>, path: Seq<char>) -> Seq<char> {
    join_with(remove_filter(lines_spec(t), quoted(path), 0, false), seq!['\n'])
        + if ends_with_char(t, '\n') {
        seq!['\n']
    } else {
        Seq::<char>::empty()
    }
}

proof fn lemma_strip_semis_take(s: Seq<char>, i: int)
    requires
        0 <= i <= s.len(),
        forall|j: int| i <= j < s.len() ==> s[j] == ';',
    ensures
        strip_semis(s) == strip_semis(s.take(i)),
    decreases s.len() - i,
{
    if i < s.len() {
        assert(s.last() == ';');
        assert(s.drop_last() =~= s.take(s.len() - 1));
        lemma_strip_semis_take(s.take(s.len() - 1), i);
        assert(s.take(s.len() - 1).take(i) =~= s.take(i));
    } else {
        assert(s.take(s.len() as int) =~= s);
    }
}

/// Whether an accumulated definition is complete.
fn def_complete_exec(d: &str) -> (r: bool)
    ensures
        r == def_complete(d@),
{
    ends_with(crate::text::trim_end(d), ';')
}

/// The substring of `d` with all trailing terminators removed.
fn strip_semis_exec(d: &str) -> (r: &str)
    ensures
        r@ == strip_semis(d@),
{
    let dlen = d.unicode_len();
    let mut end: usize = dlen;
    while end > 0 && d.get_char(end - 1) == ';'
        invariant
            dlen == d@.len(),
            0 <= end <= dlen,
            forall|j: int| end <= j < dlen ==> d@[j] == ';',
        decreases end,
    {
        end = end - 1;
    }
    proof {
        lemma_strip_semis_take(d@, end as int);
        let v = d@.take(end as int);
        assert(strip_semis(v) == v) by {
            if v.len() > 0 {
                assert(v.last() == d@[end - 1]);
            }
        }
        assert(d@.take(end as int) =~= d@.subrange(0, end as int));
    }
    d.substring_char(0, end)
}

/// A raw accumulated definition cleaned for storage.
fn clean_definition_exec(d: &str) -> (r: String)
    ensures
        r@ == clean_definition(d@),
{
    trim(strip_semis_exec(crate::text::trim_end(d))).to_owned()
}

/// The group references of a completed expression.
fn groups_of_expr_exec(expr: &str) -> (r: Vec<String>)
    ensures
        r.deep_view() == groups_of_expr(expr@),
{
    proof {
        reveal_strlit("++");
        assert("++"@ =~= plus_plus());
    }
    let parts = split_pattern(expr, "++");
    let ghost pv = parts.deep_view();
    let n = parts.len();
    let mut out: Vec<String> = Vec::new();
    let mut i: usize = 0;
    proof {
        assert(out.deep_view() =~= Seq::<Seq<char>>::empty());
        assert(pv.skip(0) =~= pv);
        assert(out.deep_view() + clean_groups(pv) =~= clean_groups(pv));
    }
    while i < n
        invariant
            pv == parts.deep_view(),
            n == parts.len(),
            0 <= i <= n,
            clean_groups(pv) == out.deep_view() + clean_groups(pv.skip(i as int)),
        decreases n - i,
    {
        let t = trim(parts[i].as_str());
        proof {
            assert(pv.skip(i as int).first() == pv[i as int]);
            assert(pv.skip(i as int).drop_first() =~= pv.skip(i + 1));
            assert(t@ == trim_spec(pv[i as int]));
        }
        if t.unicode_len() > 0 {
            let ghost old_dv = out.deep_view();
            out.push(t.to_owned());
            proof {
                assert(out.deep_view() =~= old_dv.push(trim_spec(pv[i as int])));
                assert(old_dv + clean_groups(pv.skip(i as int)) =~= out.deep_view()
                    + clean_groups(pv.skip(i + 1)));
            }
        }
        i = i + 1;
    }
    proof {
        assert(pv.skip(n as int).len() == 0);
        assert(clean_groups(pv.skip(n as int)) =~= Seq::<Seq<char>>::empty());
        assert(out.deep_view() + clean_groups(pv.skip(n as int)) =~= out.deep_view());
    }
    out
}

/// The entry denoted by one completed logical line, if it has the expected
/// shape.
fn parse_entry_line(l: &str) -> (r: Option<SecretEntry>)
    ensures
        match r {
            Some(e) => entry_of_line(l@) == Some(e.deep_view()),
            None => entry_of_line(l@) is None,
        },
{
    proof {
        reveal_strlit("\".publicKeys");
        assert("\".publicKeys"@ =~= pk_marker());
    }
    let dot_pk = match find_str(l, "\".publicKeys") {
        Some(k) => k,
        None => {
            return None;
        },
    };
    let oq = match find_char(l, '"', 0) {
        Some(k) => k,
        None => {
            return None;
        },
    };
    let eqp = match find_char(l, '=', 0) {
        Some(k) => k,
        None => {
            return None;
        },
    };
    let llen = l.unicode_len();
    proof {
        lemma_find_from_props(l@, pk_marker(), 0);
        lemma_find_char_from_props(l@, '"', 0);
        lemma_find_char_from_props(l@, '=', 0);
    }
    if oq + 1 <= dot_pk && eqp + 1 < llen {
        let path = l.substring_char(oq + 1, dot_pk).to_owned();
        let expr_t = trim(l.substring_char(eqp + 1, llen - 1));
        let expr = expr_t.to_owned();
        let groups = groups_of_expr_exec(expr_t);
        proof {
            assert(path@ =~= l@.subrange(oq + 1, dot_pk as int));
            assert(expr@ == trim_spec(l@.subrange(eqp + 1, llen - 1)));
        }
        Some(SecretEntry { path, groups, raw_expr: expr })
    } else {
        None
    }
}

/// The prelude bindings of the prelude block's lines.
fn parse_prelude_groups(lines: &Vec<String>) -> (r: Vec<GroupDef>)
    ensures
        r.deep_view() == parse_groups_spec(lines.deep_view(), 0),
{
    let ghost dv = lines.deep_view();
    let n = lines.len();
    let mut acc: Vec<GroupDef> = Vec::new();
    let mut i: usize = 0;
    proof {
        assert(acc.deep_view() =~= Seq::<GroupDefView>::empty());
        assert(acc.deep_view() + parse_groups_spec(dv, 0) =~= parse_groups_spec(dv, 0));
    }
    while i < n
        invariant
            dv == lines.deep_view(),
            n == lines.len(),
            0 <= i <= n,
            parse_groups_spec(dv, 0) == acc.deep_view() + parse_groups_spec(dv, i as int),
        decreases n - i,
    {
        let line = trim(lines[i].as_str());
        let ghost lv = line@;
        proof {
            assert(lv == trim_spec(dv[i as int]));
            reveal_strlit("let");
            assert("let"@ =~= let_kw());
        }
        let is_let = starts_with(line, "let");
        let llen = line.unicode_len();
        if is_let || llen == 0 {
            proof {
                assert(parse_groups_spec(dv, i as int) == parse_groups_spec(dv, i + 1));
            }
            i = i + 1;
        } else {
            proof {
                reveal_strlit(" = ");
                assert(" = "@ =~= eq_pat());
            }
            match find_str(line, " = ") {
                None => {
                    proof {
                        assert(parse_groups_spec(dv, i as int) == parse_groups_spec(dv, i + 1));
                    }
                    i = i + 1;
                },
                Some(eq) => {
                    proof {
                        lemma_find_from_props(lv, eq_pat(), 0);
                    }
                    let mut def: String = line.substring_char(eq + 3, llen).to_owned();
                    proof {
                        assert(def@ =~= lv.skip(eq + 3));
                    }
                    let ghost d0 = lv.skip(eq + 3);
                    let mut j: usize = i;
                    let mut complete = def_complete_exec(def.as_str());
                    while !complete && j + 1 < n
                        invariant
                            dv == lines.deep_view(),
                            n == lines.len(),
                            0 <= i <= j < n,
                            complete == def_complete(def@),
                            accumulate_def(dv, i as int, d0) == accumulate_def(
                                dv,
                                j as int,
                                def@,
                            ),
                        decreases n - j,
                    {
                        j = j + 1;
                        let ghost old_def = def@;
                        def.append("\n");
                        def.append(lines[j].as_str());
                        proof {
                            reveal_strlit("\n");
                            assert("\n"@ =~= seq!['\n']);
                            assert(def@ =~= old_def + seq!['\n'] + dv[j as int]);
                            assert(accumulate_def(dv, j - 1, old_def) == accumulate_def(
                                dv,
                                j as int,
                                def@,
                            ));
                        }
                        complete = def_complete_exec(def.as_str());
                    }
                    if complete {
                        proof {
                            assert(accumulate_def(dv, j as int, def@) == Some(
                                (j as int, def@),
                            ));
                        }
                        let name = trim(line.substring_char(0, eq)).to_owned();
                        proof {
                            assert(line@.subrange(0, eq as int) =~= lv.take(eq as int));
                            assert(name@ == trim_spec(lv.take(eq as int)));
                        }
                        let definition = clean_definition_exec(def.as_str());
                        let ghost old_acc = acc.deep_view();
                        acc.push(GroupDef { name, definition });
                        proof {
                            assert(acc.deep_view() =~= old_acc.push(
                                GroupDefView {
                                    name: trim_spec(lv.take(eq as int)),
                                    definition: clean_definition(def@),
                                },
                            ));
                            assert(parse_groups_spec(dv, i as int) == seq![
                                GroupDefView {
                                    name: trim_spec(lv.take(eq as int)),
                                    definition: clean_definition(def@),
                                },
                            ] + parse_groups_spec(dv, j + 1));
                            assert(old_acc + parse_groups_spec(dv, i as int)
                                =~= acc.deep_view() + parse_groups_spec(dv, j + 1));
                        }
                        i = j + 1;
                    } else {
                        proof {
                            assert(accumulate_def(dv, j as int, def@) is None);
                            assert(parse_groups_spec(dv, i as int) =~= Seq::<
                                GroupDefView,
                            >::empty());
                            assert(acc.deep_view() =~= parse_groups_spec(dv, 0));
                        }
                        return acc;
                    }
                },
            }
        }
    }
    proof {
        assert(parse_groups_spec(dv, n as int) =~= Seq::<GroupDefView>::empty());
        assert(acc.deep_view() + parse_groups_spec(dv, n as int) =~= acc.deep_view());
    }
    acc
}

/// The body entries of the body's lines.
fn parse_body_entries(lines: &Vec<String>) -> (r: Vec<SecretEntry>)
    ensures
        r.deep_view() == parse_body_spec(lines.deep_view(), 0, Seq::empty()),
{
    let ghost dv = lines.deep_view();
    let n = lines.len();
    let mut acc: Vec<SecretEntry> = Vec::new();
    let mut cur = String::new();
    let mut i: usize = 0;
    proof {
        assert(acc.deep_view() =~= Seq::<SecretEntryView>::empty());
        assert(acc.deep_view() + parse_body_spec(dv, 0, Seq::empty()) =~= parse_body_spec(
            dv,
            0,
            Seq::empty(),
        ));
    }
    while i < n
        invariant
            dv == lines.deep_view(),
            n == lines.len(),
            0 <= i <= n,
            parse_body_spec(dv, 0, Seq::empty()) == acc.deep_view() + parse_body_spec(
                dv,
                i as int,
                cur@,
            ),
        decreases n - i,
    {
        let line = trim(lines[i].as_str());
        proof {
            assert(line@ == trim_spec(dv[i as int]));
        }
        let tlen = line.unicode_len();
        if tlen == 0 || line.get_char(0) == '#' {
            proof {
                assert(parse_body_spec(dv, i as int, cur@) == parse_body_spec(
                    dv,
                    i + 1,
                    cur@,
                ));
            }
            i = i + 1;
        } else {
            let ghost old_cur = cur@;
            if cur.as_str().unicode_len() == 0 {
                cur = line.to_owned();
            } else {
                cur.append(" ");
                cur.append(line);
                proof {
                    reveal_strlit(" ");
                    assert(" "@ =~= seq![' ']);
                    assert(cur@ =~= old_cur + seq![' '] + line@);
                }
            }
            let ghost cur2 = cur@;
            if ends_with(cur.as_str(), ';') {
                match parse_entry_line(cur.as_str()) {
                    Some(e) => {
                        let ghost old_acc = acc.deep_view();
                        let ghost ev = e.deep_view();
                        acc.push(e);
                        proof {
                            assert(acc.deep_view() =~= old_acc.push(ev));
                            assert(parse_body_spec(dv, i as int, old_cur) == seq![ev]
                                + parse_body_spec(dv, i + 1, Seq::empty()));
                            assert(old_acc + parse_body_spec(dv, i as int, old_cur)
                                =~= acc.deep_view() + parse_body_spec(
                                dv,
                                i + 1,
                                Seq::empty(),
                            ));
                        }
                    },
                    None => {
                        proof {
                            assert(parse_body_spec(dv, i as int, old_cur)
                                == parse_body_spec(dv, i + 1, Seq::empty()));
                        }
                    },
                }
                cur = String::new();
            } else {
                proof {
                    assert(parse_body_spec(dv, i as int, old_cur) == parse_body_spec(
                        dv,
                        i + 1,
                        cur2,
                    ));
                }
            }
            i = i + 1;
        }
    }
    proof {
        assert(parse_body_spec(dv, n as int, cur@) =~= Seq::<SecretEntryView>::empty());
        assert(acc.deep_view() + parse_body_spec(dv, n as int, cur@) =~= acc.deep_view());
    }
    acc
}

/// Parse manifest text into its prelude bindings and body entries.
///
/// Fails exactly when the prelude keywords, the body's opening brace or the
/// closing brace are missing or out of order.
pub fn parse_meta_secrets(content: &str) -> (r: Result<ParsedSecrets, SecretError>)
    ensures
        match r {
            Ok(p) => spec_parse(content@) == Some(p.deep_view()),
            Err(e) => spec_parse(content@) is None && e == SecretError::MalformedManifest,
        },
{
    proof {
        reveal_strlit("\nlet\n");
        reveal_strlit("\nlet ");
        reveal_strlit("\nin\n");
        reveal_strlit("\nin ");
        reveal_strlit("\nin{");
        assert("\nlet\n"@ =~= let_nl());
        assert("\nlet "@ =~= let_sp());
        assert("\nin\n"@ =~= in_nl());
        assert("\nin "@ =~= in_sp());
        assert("\nin{"@ =~= in_br());
    }
    let clen = content.unicode_len();
    let mut padded = String::new();
    padded.append("\n");
    padded.append(content);
    proof {
        reveal_strlit("\n");
        assert("\n"@ =~= seq!['\n']);
        assert(padded@ =~= line_padded(content@));
    }
    let pstr = padded.as_str();
    let ls = match find_str(pstr, "\nlet\n") {
        Some(k) => {
            proof {
                lemma_find_from_props(line_padded(content@), let_nl(), 0);
            }
            k
        },
        None => match find_str(pstr, "\nlet ") {
            Some(k) => {
                proof {
                    lemma_find_from_props(line_padded(content@), let_sp(), 0);
                }
                k
            },
            None => {
                return Err(SecretError::MalformedManifest);
            },
        },
    };
    let ins = match find_str(pstr, "\nin\n") {
        Some(k) => {
            proof {
                lemma_find_from_props(line_padded(content@), in_nl(), 0);
            }
            k
        },
        None => match find_str(pstr, "\nin ") {
            Some(k) => {
                proof {
                    lemma_find_from_props(line_padded(content@), in_sp(), 0);
                }
                k
            },
            None => match find_str(pstr, "\nin{") {
                Some(k) => {
                    proof {
                        lemma_find_from_props(line_padded(content@), in_br(), 0);
                    }
                    k
                },
                None => {
                    return Err(SecretError::MalformedManifest);
                },
            },
        },
    };
    if ins < ls {
        return Err(SecretError::MalformedManifest);
    }
    let let_block = content.substring_char(ls, ins);
    let prelude_lines = split_lines(let_block);
    proof {
        assert(let_block@ =~= content@.subrange(ls as int, ins as int));
    }
    let groups = parse_prelude_groups(&prelude_lines);
    let ob = match find_char(content, '{', ins) {
        Some(k) => k,
        None => {
            return Err(SecretError::MalformedManifest);
        },
    };
    let cb = match rfind_char(content, '}') {
        Some(k) => k,
        None => {
            return Err(SecretError::MalformedManifest);
        },
    };
    proof {
        lemma_find_char_from_props(content@, '{', ins as int);
        lemma_rfind_char_props(content@, '}');
    }
    if cb < ob + 1 {
        return Err(SecretError::MalformedManifest);
    }
    let body = content.substring_char(ob + 1, cb);
    let body_lines = split_lines(body);
    proof {
        assert(body@ =~= content@.subrange(ob + 1, cb as int));
    }
    let secrets = parse_body_entries(&body_lines);
    Ok(ParsedSecrets { groups, secrets })
}

/// Produce manifest text with a binding for `path` and `groups` spliced in
/// immediately before the final closing brace; every byte before that brace
/// is preserved, and the file's trailing-newline convention is kept.
///
/// The text must contain a closing brace to splice before.
pub fn add_secret_entry(content: &str, path: &str, groups: &Vec<String>) -> (r: String)
    requires
        has_close_brace(content@),
    ensures
        r@ == spec_add(content@, path@, groups.deep_view()),
{
    let cb = match rfind_char(content, '}') {
        Some(k) => k,
        None => {
            assert(false);
            0
        },
    };
    proof {
        lemma_rfind_char_props(content@, '}');
    }
    let before = content.substring_char(0, cb);
    proof {
        assert(before@ =~= content@.take(cb as int));
    }
    let mut result = before.to_owned();
    if !ends_with(before, '\n') {
        result.append("\n");
        proof {
            reveal_strlit("\n");
            assert("\n"@ =~= seq!['\n']);
        }
    }
    let ghost with_nl = result@;
    result.append("  \"");
    result.append(path);
    result.append("\".publicKeys = ");
    let expr = join_strings(groups, " ++ ");
    result.append(expr.as_str());
    result.append(";");
    result.append("\n}");
    proof {
        reveal_strlit("  \"");
        reveal_strlit("\".publicKeys = ");
        reveal_strlit(";");
        reveal_strlit("\n}");
        reveal_strlit(" ++ ");
        assert("  \""@ =~= seq![' ', ' ', '"']);
        assert("\".publicKeys = "@ =~= pk_marker() + eq_pat());
        assert(";"@ =~= seq![';']);
        assert("\n}"@ =~= seq!['\n', '}']);
        assert(" ++ "@ =~= seq![' ', '+', '+', ' ']);
        assert(result@ =~= with_nl + new_entry_line(path@, groups.deep_view()) + seq![
            '\n',
            '}',
        ]);
    }
    if ends_with(content, '\n') {
        result.append("\n");
        proof {
            reveal_strlit("\n");
            assert("\n"@ =~= seq!['\n']);
        }
    }
    proof {
        assert(result@ =~= spec_add(content@, path@, groups.deep_view()));
    }
    result
}

/// Produce manifest text with the whole logical entry for `path` removed:
/// from the first line containing the quoted path through the next line
/// that, ignoring trailing whitespace, ends with the terminator. All other
/// lines pass through unchanged, in order, and the file's trailing-newline
/// convention is kept.
pub fn remove_secret_entry(content: &str, path: &str) -> (r: String)
    ensures
        r@ == spec_remove(content@, path@),
{
    let mut search = String::new();
    search.append("\"");
    search.append(path);
    search.append("\"");
    proof {
        reveal_strlit("\"");
        assert("\""@ =~= seq!['"']);
        assert(search@ =~= quoted(path@));
    }
    let lines = split_lines(content);
    let ghost dv = lines.deep_view();
    let ghost q = quoted(path@);
    let n = lines.len();
    let mut kept: Vec<String> = Vec::new();
    let mut skipping = false;
    let mut i: usize = 0;
    proof {
        assert(kept.deep_view() =~= Seq::<Seq<char>>::empty());
        assert(kept.deep_view() + remove_filter(dv, q, 0, false) =~= remove_filter(
            dv,
            q,
            0,
            false,
        ));
    }
    while i < n
        invariant
            dv == lines.deep_view(),
            q == quoted(path@),
            search@ == q,
            n == lines.len(),
            0 <= i <= n,
            remove_filter(dv, q, 0, false) == kept.deep_view() + remove_filter(
                dv,
                q,
                i as int,
                skipping,
            ),
        decreases n - i,
    {
        let line = lines[i].as_str();
        proof {
            assert(line@ == dv[i as int]);
        }
        let now_skipping = skipping || contains_str(line, search.as_str());
        if now_skipping {
            skipping = !ends_with(crate::text::trim_end(line), ';');
        } else {
            let ghost old_dv = kept.deep_view();
            let piece = lines[i].clone();
            proof {
                assert(piece@ == dv[i as int]);
            }
            kept.push(piece);
            proof {
                assert(kept.deep_view() =~= old_dv.push(dv[i as int]));
                assert(old_dv + remove_filter(dv, q, i as int, false) =~= kept.deep_view()
                    + remove_filter(dv, q, i + 1, false));
            }
        }
        i = i + 1;
    }
    proof {
        assert(remove_filter(dv, q, n as int, skipping) =~= Seq::<Seq<char>>::empty());
        assert(kept.deep_view() + remove_filter(dv, q, n as int, skipping)
            =~= kept.deep_view());
    }
    let mut out = join_strings(&kept, "\n");
    proof {
        reveal_strlit("\n");
        assert("\n"@ =~= seq!['\n']);
    }
    if ends_with(content, '\n') {
        out.append("\n");
    }
    proof {
        assert(out@ =~= spec_remove(content@, path@));
    }
    out
}

} // verus!
