//! Laws of the manifest editor: what insertion and removal preserve, and
//! how they compose.

use vstd::prelude::*;

use crate::lifecycle::{is_word_char, safe_path_char, safe_secret_path, valid_group_name};
use crate::manifest::{
    clean_groups, entry_of_line, eq_pat, groups_of_expr, has_close_brace, in_nl, in_start_spec,
    let_nl, let_start_spec, new_entry_line, parse_body_spec, parse_groups_spec, pk_marker,
    line_padded, plus_plus, quoted, remove_filter, spec_add, spec_parse, spec_remove,
    ParsedSecretsView, SecretEntryView,
};
use crate::text::{
    contains_spec, ends_with_char, find_char_from, find_spec, is_ws, join_with, no_char,
    lemma_contains_at,
    lemma_find_from_props, lemma_join_lines, lemma_no_contains_subrange, lemma_rfind_char_props,
    lemma_split_concat, lemma_split_no_sep, lines_spec, rfind_char_spec, split_char_spec,
    split_str_spec, trim_end_spec, trim_spec, trim_start_spec,
};

verus! {

/// Index of the first line at or after `i` that contains `search`.
pub open spec fn first_match_line(ls: Seq<Seq<char>>, search: Seq<char>, i: int) -> Option<int>
    decreases ls.len() - i,
{
    if i < 0 || i >= ls.len() {
        None
    } else if contains_spec(ls[i], search) {
        Some(i)
    } else {
        first_match_line(ls, search, i + 1)
    }
}

/// One past the last line of the suppressed block that starts at line `i`:
/// the block runs through the first line that, ignoring trailing
/// whitespace, ends with the terminator, or through the last line.
pub open spec fn block_end(ls: Seq<Seq<char>>, i: int) -> int
    decreases ls.len() - i,
{
    if i < 0 || i >= ls.len() {
        ls.len() as int
    } else if ends_with_char(trim_end_spec(ls[i]), ';') {
        i + 1
    } else {
        block_end(ls, i + 1)
    }
}

/// What `first_match_line` returns is the first matching line.
pub proof fn lemma_first_match_props(ls: Seq<Seq<char>>, search: Seq<char>, i: int)
    requires
        0 <= i,
    ensures
        match first_match_line(ls, search, i) {
            Some(a) => i <= a < ls.len() && contains_spec(ls[a], search) && forall|j: int|
                i <= j < a ==> !contains_spec(ls[j], search),
            None => forall|j: int| i <= j < ls.len() ==> !contains_spec(ls[j], search),
        },
    decreases ls.len() - i,
{
    if 0 <= i < ls.len() && !contains_spec(ls[i], search) {
        lemma_first_match_props(ls, search, i + 1);
    }
}

/// The block end lies between its start and the end of the input.
pub proof fn lemma_block_end_bounds(ls: Seq<Seq<char>>, i: int)
    requires
        0 <= i <= ls.len(),
    ensures
        i <= block_end(ls, i) <= ls.len(),
    decreases ls.len() - i,
{
    if i < ls.len() && !ends_with_char(trim_end_spec(ls[i]), ';') {
        lemma_block_end_bounds(ls, i + 1);
    }
}

/// Where no line matches, the filter keeps every line.
proof fn lemma_filter_pass(ls: Seq<Seq<char>>, q: Seq<char>, i: int)
    requires
        0 <= i <= ls.len(),
        first_match_line(ls, q, i) is None,
    ensures
        remove_filter(ls, q, i, false) == ls.skip(i),
    decreases ls.len() - i,
{
    if i < ls.len() {
        lemma_filter_pass(ls, q, i + 1);
        assert(remove_filter(ls, q, i, false) == seq![ls[i]] + ls.skip(i + 1));
        assert(seq![ls[i]] + ls.skip(i + 1) =~= ls.skip(i));
    } else {
        assert(ls.skip(i) =~= Seq::<Seq<char>>::empty());
    }
}

/// Once suppressing, the filter drops lines exactly through the block end.
proof fn lemma_filter_skip(ls: Seq<Seq<char>>, q: Seq<char>, i: int)
    requires
        0 <= i <= ls.len(),
    ensures
        remove_filter(ls, q, i, true) == remove_filter(ls, q, block_end(ls, i), false),
    decreases ls.len() - i,
{
    if i < ls.len() && !ends_with_char(trim_end_spec(ls[i]), ';') {
        lemma_filter_skip(ls, q, i + 1);
    }
}

/// The filter, from any position: everything up to the first matching line
/// is kept; the block from that line is dropped; and the rest is filtered
/// again.
pub proof fn lemma_filter_structure(ls: Seq<Seq<char>>, q: Seq<char>, i: int)
    requires
        0 <= i <= ls.len(),
    ensures
        remove_filter(ls, q, i, false) == match first_match_line(ls, q, i) {
            None => ls.skip(i),
            Some(a) => ls.subrange(i, a) + remove_filter(ls, q, block_end(ls, a), false),
        },
    decreases ls.len() - i,
{
    lemma_first_match_props(ls, q, i);
    match first_match_line(ls, q, i) {
        None => {
            lemma_filter_pass(ls, q, i);
        },
        Some(a) => {
            if i == a {
                lemma_filter_skip(ls, q, i);
                assert(remove_filter(ls, q, i, false) == remove_filter(
                    ls,
                    q,
                    block_end(ls, a),
                    false,
                ));
                assert(ls.subrange(i, a) =~= Seq::<Seq<char>>::empty());
                assert(ls.subrange(i, a) + remove_filter(ls, q, block_end(ls, a), false)
                    =~= remove_filter(ls, q, block_end(ls, a), false));
            } else {
                lemma_filter_structure(ls, q, i + 1);
                assert(remove_filter(ls, q, i, false) == seq![ls[i]] + (ls.subrange(i + 1, a)
                    + remove_filter(ls, q, block_end(ls, a), false)));
                assert(seq![ls[i]] + (ls.subrange(i + 1, a) + remove_filter(
                    ls,
                    q,
                    block_end(ls, a),
                    false,
                )) =~= ls.subrange(i, a) + remove_filter(ls, q, block_end(ls, a), false));
            }
        },
    }
}

/// Non-interference of removal: when no line mentions the quoted path the
/// manifest's lines are kept entirely; when some line does, and none does
/// again after the suppressed block, removal deletes exactly that one
/// contiguous block — from the first mentioning line through the first
/// terminator line — and every other line survives unchanged, in order.
pub proof fn lemma_remove_noninterference(t: Seq<char>, path: Seq<char>)
    ensures
        match first_match_line(lines_spec(t), quoted(path), 0) {
            None => remove_filter(lines_spec(t), quoted(path), 0, false) == lines_spec(t),
            Some(a) => first_match_line(
                lines_spec(t),
                quoted(path),
                block_end(lines_spec(t), a),
            ) is None ==> remove_filter(lines_spec(t), quoted(path), 0, false) == lines_spec(
                t,
            ).take(a) + lines_spec(t).skip(block_end(lines_spec(t), a)),
        },
{
    let ls = lines_spec(t);
    let q = quoted(path);
    lemma_filter_structure(ls, q, 0);
    lemma_first_match_props(ls, q, 0);
    match first_match_line(ls, q, 0) {
        None => {
            assert(ls.skip(0) =~= ls);
        },
        Some(a) => {
            lemma_block_end_bounds(ls, a);
            let b = block_end(ls, a);
            if first_match_line(ls, q, b) is None {
                lemma_filter_pass(ls, q, b);
                assert(ls.subrange(0, a) =~= ls.take(a));
            }
        },
    }
}

/// Non-interference of insertion: every byte before the final closing
/// brace stands unchanged, at its position, in the edited text.
pub proof fn lemma_add_preserves_prefix(t: Seq<char>, path: Seq<char>, groups: Seq<Seq<char>>)
    requires
        has_close_brace(t),
    ensures
        ({
            let cb = rfind_char_spec(t, '}').unwrap();
            spec_add(t, path, groups).take(cb) == t.take(cb)
        }),
{
    lemma_rfind_char_props(t, '}');
    let cb = rfind_char_spec(t, '}').unwrap();
    assert(spec_add(t, path, groups).take(cb) =~= t.take(cb));
}

/// A join of pieces that avoid a character, on a separator that avoids it,
/// avoids it.
proof fn lemma_join_no_char(parts: Seq<Seq<char>>, sep: Seq<char>, c: char)
    requires
        forall|k: int| 0 <= k < parts.len() ==> no_char(parts[k], c),
        no_char(sep, c),
    ensures
        no_char(join_with(parts, sep), c),
    decreases parts.len(),
{
    if parts.len() == 0 {
    } else if parts.len() == 1 {
        assert(join_with(parts, sep) == parts[0]);
    } else {
        lemma_join_no_char(parts.drop_first(), sep, c);
        assert(forall|k: int|
            0 <= k < parts.drop_first().len() ==> parts.drop_first()[k] == parts[k + 1]);
        let w = parts[0] + sep + join_with(parts.drop_first(), sep);
        assert(join_with(parts, sep) == w);
        assert(forall|i: int| 0 <= i < w.len() ==> w[i] != c) by {
            assert forall|i: int| 0 <= i < w.len() implies w[i] != c by {
                if i < parts[0].len() {
                    assert(w[i] == parts[0][i]);
                } else if i < parts[0].len() + sep.len() {
                    assert(w[i] == sep[i - parts[0].len()]);
                } else {
                    assert(w[i] == join_with(parts.drop_first(), sep)[i - parts[0].len()
                        - sep.len()]);
                }
            }
        }
    }
}

/// No piece of a split of text that does not contain `p` contains `p`.
proof fn lemma_split_no_contains(x: Seq<char>, c: char, p: Seq<char>)
    requires
        !contains_spec(x, p),
    ensures
        forall|k: int|
            0 <= k < split_char_spec(x, c).len() ==> !contains_spec(split_char_spec(x, c)[k], p),
    decreases x.len(),
{
    crate::text::lemma_find_char_from_props(x, c, 0);
    match crate::text::find_char_from(x, c, 0) {
        Some(i) => {
            lemma_no_contains_subrange(x, p, 0, i);
            lemma_no_contains_subrange(x, p, i + 1, x.len() as int);
            assert(x.take(i) =~= x.subrange(0, i));
            assert(x.skip(i + 1) =~= x.subrange(i + 1, x.len() as int));
            lemma_split_no_contains(x.skip(i + 1), c, p);
            let parts = seq![x.take(i)] + split_char_spec(x.skip(i + 1), c);
            assert(split_char_spec(x, c) == parts);
            assert(forall|k: int|
                1 <= k < parts.len() ==> parts[k] == split_char_spec(x.skip(i + 1), c)[k - 1]);
        },
        None => {
            assert(split_char_spec(x, c) == seq![x]);
        },
    }
}

/// The inserted binding line is one line: it contains no newline.
proof fn lemma_new_line_single(path: Seq<char>, groups: Seq<Seq<char>>)
    requires
        no_char(path, '\n'),
        forall|k: int| 0 <= k < groups.len() ==> no_char(groups[k], '\n'),
    ensures
        no_char(new_entry_line(path, groups), '\n'),
{
    let sep = seq![' ', '+', '+', ' '];
    lemma_join_no_char(groups, sep, '\n');
    let e = join_with(groups, sep);
    let n = new_entry_line(path, groups);
    let head = seq![' ', ' ', '"'] + path + crate::manifest::pk_marker()
        + crate::manifest::eq_pat();
    assert(n =~= head + e + seq![';']);
    assert forall|i: int| 0 <= i < n.len() implies n[i] != '\n' by {
        if i < head.len() {
            assert(n[i] == head[i]);
            if 3 <= i < 3 + path.len() {
                assert(head[i] == path[i - 3]);
            }
        } else if i < head.len() + e.len() {
            assert(n[i] == e[i - head.len()]);
        } else {
            assert(n[i] == ';');
        }
    }
}

/// Round-trip inverse: removing the entry for a path that was just added,
/// and was not mentioned before, restores the original text byte for byte.
///
/// The original must be in the usual closing shape — the final brace opens
/// its own line and ends the file, save for an optional trailing newline —
/// and the path and group names must be single-line.
pub proof fn lemma_remove_inverts_add(t: Seq<char>, path: Seq<char>, groups: Seq<Seq<char>>)
    requires
        has_close_brace(t),
        ({
            let cb = rfind_char_spec(t, '}').unwrap();
            &&& cb >= 1
            &&& t[cb - 1] == '\n'
            &&& (cb == t.len() - 1 || (cb == t.len() - 2 && t[t.len() - 1] == '\n'))
        }),
        !contains_spec(t, quoted(path)),
        no_char(path, '\n'),
        forall|k: int| 0 <= k < groups.len() ==> no_char(groups[k], '\n'),
    ensures
        spec_remove(spec_add(t, path, groups), path) == t,
{
    lemma_rfind_char_props(t, '}');
    let cb = rfind_char_spec(t, '}').unwrap();
    let nl = new_entry_line(path, groups);
    let q = quoted(path);
    lemma_new_line_single(path, groups);
    let p_before = t.take(cb);
    assert(p_before.last() == t[cb - 1]);
    assert(ends_with_char(p_before, '\n'));
    let p0 = t.take(cb - 1);
    assert(p_before =~= p0 + seq!['\n']);
    let tail_nl = ends_with_char(t, '\n');
    let trail: Seq<char> = if tail_nl {
        seq!['\n']
    } else {
        Seq::<char>::empty()
    };
    if cb == t.len() - 1 {
        assert(!tail_nl);
    } else {
        assert(tail_nl);
    }
    assert(t =~= p0 + seq!['\n'] + seq!['}'] + trail);
    let tp = spec_add(t, path, groups);
    assert(tp =~= p0 + seq!['\n'] + nl + seq!['\n'] + (seq!['}'] + trail));
    // The edited text keeps the trailing-newline convention.
    assert(ends_with_char(tp, '\n') == tail_nl);
    // Its lines are: the lines before the brace, the new line, the brace.
    let core = p0 + seq!['\n'] + nl + seq!['\n'] + seq!['}'];
    if tail_nl {
        assert(tp.take(tp.len() - 1) =~= core);
    } else {
        assert(tp =~= core);
        assert(tp.last() == '}');
    }
    lemma_split_concat(p0, nl + seq!['\n'] + seq!['}'], '\n');
    assert(p0 + seq!['\n'] + (nl + seq!['\n'] + seq!['}']) =~= core);
    lemma_split_concat(nl, seq!['}'], '\n');
    lemma_split_no_sep(nl, '\n');
    lemma_split_no_sep(seq!['}'], '\n');
    let a_lines = split_char_spec(p0, '\n');
    let lsp = lines_spec(tp);
    assert(lsp == split_char_spec(core, '\n'));
    assert(lsp =~= a_lines + seq![nl] + seq![seq!['}']]);
    // The original's lines are the same, without the new line.
    let tcore = p0 + seq!['\n'] + seq!['}'];
    if tail_nl {
        assert(t.take(t.len() - 1) =~= tcore);
    } else {
        assert(t =~= tcore);
        assert(t.last() == '}');
    }
    lemma_split_concat(p0, seq!['}'], '\n');
    assert(lines_spec(t) == split_char_spec(tcore, '\n'));
    assert(lines_spec(t) =~= a_lines + seq![seq!['}']]);
    // Lines before the brace do not mention the quoted path.
    lemma_no_contains_subrange(t, q, 0, cb - 1);
    assert(p0 =~= t.subrange(0, cb - 1));
    lemma_split_no_contains(p0, '\n', q);
    // The new line mentions it, and closes its block at once.
    assert(nl.subrange(2, 2 + q.len() as int) =~= q) by {
        assert(forall|i: int| 0 <= i < path.len() ==> nl[3 + i] == path[i]);
    }
    assert(crate::text::is_match(nl, q, 2));
    lemma_contains_at(nl, q, 2);
    assert(nl.last() == ';');
    assert(trim_end_spec(nl) == nl);
    assert(ends_with_char(trim_end_spec(nl), ';'));
    // The brace line does not mention it.
    assert(!contains_spec(seq!['}'], q));
    // So the filter keeps exactly the original's lines.
    let m = a_lines.len() as int;
    assert(forall|j: int| 0 <= j < m ==> lsp[j] == a_lines[j]);
    assert(lsp[m] == nl);
    assert(lsp[m + 1] == seq!['}']);
    lemma_first_match_converse(lsp, q, m);
    lemma_filter_structure(lsp, q, 0);
    assert(block_end(lsp, m) == m + 1);
    assert(first_match_line(lsp, q, m + 1) is None) by {
        assert(!contains_spec(lsp[m + 1], q));
        assert(m + 2 == lsp.len());
        assert(first_match_line(lsp, q, m + 2) is None);
    }
    lemma_filter_pass(lsp, q, m + 1);
    assert(remove_filter(lsp, q, 0, false) == lsp.subrange(0, m) + lsp.skip(m + 1));
    assert(lsp.subrange(0, m) =~= a_lines);
    assert(lsp.skip(m + 1) =~= seq![seq!['}']]);
    assert(remove_filter(lsp, q, 0, false) =~= lines_spec(t));
    // Joining the kept lines under the kept convention restores the text.
    lemma_join_lines(t);
    assert(spec_remove(tp, path) == join_with(lines_spec(t), seq!['\n']) + trail);
}

/// The logical line still being accumulated after the body's lines have
/// been consumed from `i` on, starting from `cur`.
pub open spec fn body_residual(lines: Seq<Seq<char>>, i: int, cur: Seq<char>) -> Seq<char>
    decreases lines.len() - i,
{
    if i < 0 || i >= lines.len() {
        cur
    } else {
        let tr = trim_spec(lines[i]);
        if tr.len() == 0 || tr[0] == '#' {
            body_residual(lines, i + 1, cur)
        } else {
            let cur2 = if cur.len() == 0 {
                tr
            } else {
                cur + seq![' '] + tr
            };
            if ends_with_char(cur2, ';') {
                body_residual(lines, i + 1, Seq::empty())
            } else {
                body_residual(lines, i + 1, cur2)
            }
        }
    }
}

/// Body parsing beyond a first batch of lines sees only the second batch.
proof fn lemma_parse_body_shift(a: Seq<Seq<char>>, b: Seq<Seq<char>>, k: int, cur: Seq<char>)
    requires
        0 <= k <= b.len(),
    ensures
        parse_body_spec(a + b, a.len() + k, cur) == parse_body_spec(b, k, cur),
        body_residual(a + b, a.len() + k, cur) == body_residual(b, k, cur),
    decreases b.len() - k,
{
    let w = a + b;
    if k < b.len() {
        assert(w[a.len() + k] == b[k]);
        let tr = trim_spec(b[k]);
        if tr.len() == 0 || tr[0] == '#' {
            lemma_parse_body_shift(a, b, k + 1, cur);
        } else {
            let cur2 = if cur.len() == 0 {
                tr
            } else {
                cur + seq![' '] + tr
            };
            if ends_with_char(cur2, ';') {
                lemma_parse_body_shift(a, b, k + 1, Seq::empty());
            } else {
                lemma_parse_body_shift(a, b, k + 1, cur2);
            }
        }
    }
}

/// Body parsing of two batches of lines: the first batch's entries, then
/// the second batch's, begun from the first's leftover logical line.
proof fn lemma_parse_body_append(a: Seq<Seq<char>>, b: Seq<Seq<char>>, i: int, cur: Seq<char>)
    requires
        0 <= i <= a.len(),
    ensures
        parse_body_spec(a + b, i, cur) == parse_body_spec(a, i, cur) + parse_body_spec(
            b,
            0,
            body_residual(a, i, cur),
        ),
    decreases a.len() - i,
{
    let w = a + b;
    if i == a.len() {
        lemma_parse_body_shift(a, b, 0, cur);
        assert(parse_body_spec(a, i, cur) =~= Seq::<SecretEntryView>::empty());
        assert(body_residual(a, i, cur) == cur);
        assert(parse_body_spec(a, i, cur) + parse_body_spec(b, 0, cur) =~= parse_body_spec(
            b,
            0,
            cur,
        ));
    } else {
        assert(w[i] == a[i]);
        let tr = trim_spec(a[i]);
        if tr.len() == 0 || tr[0] == '#' {
            lemma_parse_body_append(a, b, i + 1, cur);
        } else {
            let cur2 = if cur.len() == 0 {
                tr
            } else {
                cur + seq![' '] + tr
            };
            if ends_with_char(cur2, ';') {
                lemma_parse_body_append(a, b, i + 1, Seq::empty());
                match crate::manifest::entry_of_line(cur2) {
                    Some(e) => {
                        assert(seq![e] + (parse_body_spec(a, i + 1, Seq::empty())
                            + parse_body_spec(b, 0, body_residual(a, i + 1, Seq::empty())))
                            =~= (seq![e] + parse_body_spec(a, i + 1, Seq::empty()))
                            + parse_body_spec(b, 0, body_residual(a, i + 1, Seq::empty())));
                    },
                    None => {},
                }
            } else {
                lemma_parse_body_append(a, b, i + 1, cur2);
            }
        }
    }
}

/// A first occurrence that lies wholly before an unchanged prefix's end is
/// found unchanged in the edited text.
proof fn lemma_find_preserved(t: Seq<char>, tp: Seq<char>, p: Seq<char>, cb: int, k: int)
    requires
        0 <= k,
        k + p.len() <= cb <= t.len(),
        cb <= tp.len(),
        tp.take(cb) == t.take(cb),
        find_spec(t, p) == Some(k),
    ensures
        find_spec(tp, p) == Some(k),
{
    lemma_find_from_props(t, p, 0);
    assert(forall|j: int| 0 <= j < cb ==> tp[j] == tp.take(cb)[j] && t[j] == t.take(cb)[j]);
    assert(tp.subrange(k, k + p.len() as int) =~= t.subrange(k, k + p.len() as int));
    assert(crate::text::is_match(tp, p, k));
    assert forall|j: int| 0 <= j < k implies !crate::text::is_match(tp, p, j) by {
        if crate::text::is_match(tp, p, j) {
            assert(tp.subrange(j, j + p.len() as int) =~= t.subrange(j, j + p.len() as int));
            assert(crate::text::is_match(t, p, j));
        }
    }
    crate::text::lemma_find_from_converse(tp, p, k);
}

/// A first character occurrence that lies before an unchanged prefix's end
/// is found unchanged in the edited text.
proof fn lemma_find_char_preserved(t: Seq<char>, tp: Seq<char>, c: char, cb: int, start: int, k: int)
    requires
        0 <= start <= k < cb <= t.len(),
        cb <= tp.len(),
        tp.take(cb) == t.take(cb),
        crate::text::find_char_from(t, c, start) == Some(k),
    ensures
        crate::text::find_char_from(tp, c, start) == Some(k),
{
    crate::text::lemma_find_char_from_props(t, c, start);
    assert(forall|j: int| 0 <= j < cb ==> tp[j] == tp.take(cb)[j] && t[j] == t.take(cb)[j]);
    assert(tp[k] == c);
    crate::text::lemma_find_char_converse(tp, c, start, k);
}

/// The marker's characters after its opening quote.
pub open spec fn pk_tail() -> Seq<char> {
    seq!['.', 'p', 'u', 'b', 'l', 'i', 'c', 'K', 'e', 'y', 's']
}

/// The separator the editor writes between group references.
pub open spec fn group_sep() -> Seq<char> {
    seq![' ', '+', '+', ' ']
}

/// Leading spaces do not change where trimming from the start lands.
proof fn lemma_trim_start_space_prefix(sp: Seq<char>, g: Seq<char>)
    requires
        forall|i: int| 0 <= i < sp.len() ==> sp[i] == ' ',
    ensures
        trim_start_spec(sp + g) == trim_start_spec(g),
    decreases sp.len(),
{
    if sp.len() == 0 {
        assert(sp + g =~= g);
    } else {
        let w = sp + g;
        assert(is_ws(w[0]));
        assert(w.drop_first() =~= sp.drop_first() + g);
        lemma_trim_start_space_prefix(sp.drop_first(), g);
    }
}

/// A name passing the identifier policy is left unchanged by trimming.
proof fn lemma_trim_word(g: Seq<char>)
    requires
        valid_group_name(g),
    ensures
        trim_spec(g) == g,
{
    assert(!is_ws(g[0]));
    assert(!is_ws(g.last()));
}

/// The joined group expression starts and ends with identifier characters.
proof fn lemma_join_words(gs: Seq<Seq<char>>)
    requires
        gs.len() >= 1,
        forall|k: int| 0 <= k < gs.len() ==> valid_group_name(gs[k]),
    ensures
        ({
            let e = join_with(gs, group_sep());
            e.len() > 0 && is_word_char(e[0]) && is_word_char(e.last())
        }),
    decreases gs.len(),
{
    let e = join_with(gs, group_sep());
    if gs.len() == 1 {
        assert(e == gs[0]);
    } else {
        assert(forall|k: int| 0 <= k < gs.drop_first().len() ==> gs.drop_first()[k] == gs[k
            + 1]);
        lemma_join_words(gs.drop_first());
        let tail = join_with(gs.drop_first(), group_sep());
        assert(e == gs[0] + group_sep() + tail);
        assert(e[0] == gs[0][0]);
        assert(e.last() == tail.last());
    }
}

/// Names passing the identifier policy avoid any non-identifier character.
proof fn lemma_valid_groups_no_char(gs: Seq<Seq<char>>, c: char)
    requires
        forall|k: int| 0 <= k < gs.len() ==> valid_group_name(gs[k]),
        !is_word_char(c),
    ensures
        forall|k: int| 0 <= k < gs.len() ==> no_char(gs[k], c),
{
    assert forall|k: int| 0 <= k < gs.len() implies no_char(gs[k], c) by {
        assert(valid_group_name(gs[k]));
        assert forall|i: int| 0 <= i < gs[k].len() implies gs[k][i] != c by {
            assert(is_word_char(gs[k][i]));
        }
    }
}

/// Splitting the written group expression on the operator, trimming and
/// discarding empties recovers exactly the group names, under any leading
/// spaces.
proof fn lemma_clean_split_join(gs: Seq<Seq<char>>, sp: Seq<char>)
    requires
        forall|k: int| 0 <= k < gs.len() ==> valid_group_name(gs[k]),
        forall|i: int| 0 <= i < sp.len() ==> sp[i] == ' ',
    ensures
        clean_groups(split_str_spec(sp + join_with(gs, group_sep()), plus_plus())) == gs,
    decreases gs.len(),
{
    let pp = plus_plus();
    let e = join_with(gs, group_sep());
    let w = sp + e;
    if gs.len() == 0 {
        assert(w =~= sp);
        assert forall|j: int| 0 <= j <= w.len() - pp.len() implies !crate::text::is_match(
            w,
            pp,
            j,
        ) by {
            if crate::text::is_match(w, pp, j) {
                assert(w.subrange(j, j + 2)[0] == w[j]);
                assert(w[j] == '+');
            }
        }
        lemma_find_from_props(w, pp, 0);
        match find_spec(w, pp) {
            Some(x) => {
                assert(crate::text::is_match(w, pp, x));
            },
            None => {},
        }
        assert(split_str_spec(w, pp) == seq![w]);
        lemma_trim_start_space_prefix(sp, Seq::empty());
        assert(sp + Seq::<char>::empty() =~= sp);
        assert(trim_spec(w).len() == 0);
        assert(seq![w].first() == w);
        assert(seq![w].drop_first() =~= Seq::<Seq<char>>::empty());
        assert(clean_groups(Seq::<Seq<char>>::empty()) == Seq::<Seq<char>>::empty());
        assert(clean_groups(seq![w]) == Seq::<Seq<char>>::empty());
        assert(clean_groups(split_str_spec(w, pp)) =~= gs);
    } else if gs.len() == 1 {
        assert(e == gs[0]);
        assert forall|j: int| 0 <= j <= w.len() - pp.len() implies !crate::text::is_match(
            w,
            pp,
            j,
        ) by {
            if crate::text::is_match(w, pp, j) {
                assert(w.subrange(j, j + 2)[0] == w[j]);
                assert(w[j] == '+');
                if j < sp.len() {
                } else {
                    assert(w[j] == gs[0][j - sp.len()]);
                    assert(is_word_char(gs[0][j - sp.len()]));
                }
            }
        }
        lemma_find_from_props(w, pp, 0);
        match find_spec(w, pp) {
            Some(x) => {
                assert(crate::text::is_match(w, pp, x));
            },
            None => {},
        }
        assert(split_str_spec(w, pp) == seq![w]);
        lemma_trim_start_space_prefix(sp, gs[0]);
        lemma_trim_word(gs[0]);
        assert(trim_spec(w) == trim_end_spec(trim_start_spec(gs[0])));
        assert(trim_spec(w) == gs[0]);
        assert(gs[0].len() > 0);
        assert(seq![w].first() == w);
        assert(seq![w].drop_first() =~= Seq::<Seq<char>>::empty());
        assert(clean_groups(seq![w]) == seq![gs[0]] + clean_groups(
            seq![w].drop_first(),
        ));
        assert(clean_groups(split_str_spec(w, pp)) =~= gs);
    } else {
        let g0 = gs[0];
        let rest = gs.drop_first();
        assert(forall|k: int| 0 <= k < rest.len() ==> rest[k] == gs[k + 1]);
        let tail = join_with(rest, group_sep());
        assert(e == g0 + group_sep() + tail);
        let q: int = sp.len() as int + g0.len() as int + 1;
        assert(w =~= sp + g0 + group_sep() + tail);
        assert(w[q] == '+' && w[q + 1] == '+') by {
            assert(w[sp.len() + g0.len() as int + 1] == group_sep()[1]);
            assert(w[sp.len() + g0.len() as int + 2] == group_sep()[2]);
        }
        assert(crate::text::is_match(w, pp, q as int)) by {
            assert(w.subrange(q as int, q as int + 2) =~= pp);
        }
        assert forall|j: int| 0 <= j < q implies !crate::text::is_match(w, pp, j) by {
            if crate::text::is_match(w, pp, j) {
                assert(w.subrange(j, j + 2)[0] == w[j]);
                assert(w[j] == '+');
                if j < sp.len() {
                } else if j < sp.len() + g0.len() {
                    assert(w[j] == g0[j - sp.len()]);
                    assert(is_word_char(g0[j - sp.len()]));
                } else {
                    assert(w[j] == group_sep()[0]);
                }
            }
        }
        crate::text::lemma_find_from_converse(w, pp, q as int);
        assert(split_str_spec(w, pp) == seq![w.take(q as int)] + split_str_spec(
            w.skip(q as int + 2),
            pp,
        ));
        assert(w.take(q as int) =~= sp + g0 + seq![' ']);
        assert(w.skip(q as int + 2) =~= seq![' '] + tail);
        lemma_trim_start_space_prefix(sp, g0 + seq![' ']);
        assert(sp + g0 + seq![' '] =~= sp + (g0 + seq![' ']));
        assert(trim_start_spec(g0 + seq![' ']) == g0 + seq![' ']) by {
            assert((g0 + seq![' '])[0] == g0[0]);
            assert(is_word_char(g0[0]));
        }
        assert(trim_end_spec(g0 + seq![' ']) == g0) by {
            assert((g0 + seq![' ']).last() == ' ');
            assert((g0 + seq![' ']).drop_last() =~= g0);
            assert(trim_end_spec(g0 + seq![' ']) == trim_end_spec(g0));
            assert(is_word_char(g0[g0.len() - 1]));
            assert(!is_ws(g0.last()));
        }
        assert(trim_spec(w.take(q as int)) == g0);
        lemma_clean_split_join(rest, seq![' ']);
        assert(g0.len() > 0);
        let parts = seq![w.take(q)] + split_str_spec(w.skip(q + 2), pp);
        assert(split_str_spec(w, pp) == parts);
        assert(parts.first() == w.take(q));
        assert(parts.drop_first() =~= split_str_spec(w.skip(q + 2), pp));
        assert(clean_groups(parts) == seq![trim_spec(w.take(q))] + clean_groups(
            parts.drop_first(),
        ));
        assert(clean_groups(split_str_spec(w, pp)) == seq![g0] + rest);
        assert(seq![g0] + rest =~= gs);
    }
}

/// The inserted binding line, once trimmed, parses to exactly the entry it
/// was written for.
proof fn lemma_new_line_entry(path: Seq<char>, gs: Seq<Seq<char>>)
    requires
        safe_secret_path(path),
        !crate::text::is_match(path, pk_tail(), 0),
        forall|k: int| 0 <= k < gs.len() ==> valid_group_name(gs[k]),
    ensures
        parse_body_spec(seq![new_entry_line(path, gs)], 0, Seq::empty()) == seq![
            SecretEntryView {
                path: path,
                groups: gs,
                raw_expr: join_with(gs, group_sep()),
            },
        ],
        body_residual(seq![new_entry_line(path, gs)], 0, Seq::empty()) == Seq::<char>::empty(),
{
    let n = new_entry_line(path, gs);
    let e = join_with(gs, group_sep());
    let pl = path.len() as int;
    let el = e.len() as int;
    let m = seq!['"'] + path + pk_marker() + eq_pat() + e + seq![';'];
    assert(n =~= seq![' ', ' '] + m);
    lemma_trim_start_space_prefix(seq![' ', ' '], m);
    assert(m[0] == '"');
    assert(trim_start_spec(m) == m);
    assert(m.len() == pl + 17 + el);
    assert(m.last() == ';');
    assert(trim_end_spec(m) == m);
    assert(trim_spec(n) == m);
    assert(pk_marker() =~= seq!['"'] + pk_tail());
    assert forall|i: int| 0 <= i < pl implies m[1 + i] == path[i] by {}
    assert forall|j: int| 0 <= j < 12 implies m[1 + pl + j] == pk_marker()[j] by {}
    assert forall|j: int| 0 <= j < 3 implies m[13 + pl + j] == eq_pat()[j] by {}
    assert forall|j: int| 0 <= j < el implies m[16 + pl + j] == e[j] by {}
    assert(forall|j: int| 0 <= j < 11 ==> pk_tail()[j] != '"' && pk_tail()[j] != '=');
    // The marker is first found right after the path.
    assert(crate::text::is_match(m, pk_marker(), 1 + pl)) by {
        assert(m.subrange(1 + pl, 13 + pl) =~= pk_marker());
    }
    assert forall|q: int| 0 <= q < 1 + pl implies !crate::text::is_match(m, pk_marker(), q) by {
        if crate::text::is_match(m, pk_marker(), q) {
            if q == 0 {
                assert(forall|j: int| 0 <= j < 12 ==> m.subrange(0, 12)[j] == m[j]);
                if pl >= 11 {
                    assert(path.subrange(0, 11) =~= pk_tail()) by {
                        assert forall|j: int| 0 <= j < 11 implies path[j] == pk_tail()[j] by {
                            assert(m[j + 1] == pk_marker()[j + 1]);
                            assert(m[j + 1] == path[j]);
                            assert(pk_marker()[j + 1] == pk_tail()[j]);
                        }
                    }
                    assert(crate::text::is_match(path, pk_tail(), 0));
                } else {
                    assert(m[1 + pl] == pk_marker()[1 + pl]);
                    assert(m[1 + pl] == pk_marker()[0]);
                    assert(pk_marker()[1 + pl] == pk_tail()[pl]);
                }
            } else {
                assert(m.subrange(q, q + 12)[0] == m[q]);
                assert(m[q] == path[q - 1]);
                assert(safe_path_char(path[q - 1]));
                assert(pk_marker()[0] == '"');
            }
        }
    }
    crate::text::lemma_find_from_converse(m, pk_marker(), 1 + pl);
    // The first quote opens the line.
    assert(crate::text::find_char_from(m, '"', 0) == Some(0int));
    // The first equals sign follows the marker.
    assert(m[14 + pl] == '=');
    assert forall|j: int| 0 <= j < 14 + pl implies m[j] != '=' by {
        if j == 0 {
        } else if j < 1 + pl {
            assert(m[j] == path[j - 1]);
            assert(safe_path_char(path[j - 1]));
        } else if j < 13 + pl {
            assert(m[j] == pk_marker()[j - 1 - pl]);
            if j - 1 - pl >= 1 {
                assert(pk_marker()[j - 1 - pl] == pk_tail()[j - 2 - pl]);
            }
        } else {
            assert(m[j] == eq_pat()[0]);
        }
    }
    crate::text::lemma_find_char_converse(m, '=', 0, 14 + pl);
    // The entry the line denotes.
    assert(m.subrange(1, 1 + pl) =~= path);
    let expr_raw = m.subrange(15 + pl, m.len() - 1);
    assert(expr_raw =~= seq![' '] + e);
    lemma_trim_start_space_prefix(seq![' '], e);
    if gs.len() == 0 {
        assert(e.len() == 0);
        assert(trim_spec(expr_raw) == e);
    } else {
        lemma_join_words(gs);
        assert(trim_start_spec(e) == e);
        assert(trim_end_spec(e) == e);
        assert(trim_spec(expr_raw) == e);
    }
    lemma_clean_split_join(gs, Seq::empty());
    assert(Seq::<char>::empty() + e =~= e);
    assert(groups_of_expr(e) == gs);
    assert(entry_of_line(m) == Some(
        SecretEntryView { path: path, groups: gs, raw_expr: e },
    ));
    // The single line yields that entry and leaves nothing accumulated.
    assert(seq![n][0] == n);
    assert(ends_with_char(m, ';'));
    assert(parse_body_spec(seq![n], 1, Seq::empty()) =~= Seq::<SecretEntryView>::empty());
    assert(body_residual(seq![n], 1, Seq::empty()) == Seq::<char>::empty());
    assert(parse_body_spec(seq![n], 0, Seq::empty()) =~= seq![
        SecretEntryView { path: path, groups: gs, raw_expr: e },
    ]);
}

/// Non-interference of insertion at the line level: when the final brace
/// opens its own line and ends the file (save an optional trailing
/// newline), the edited text's lines are the original's lines with exactly
/// one new line — the binding line — inserted immediately before the final
/// brace line; every other line is byte-identical, in order, and the
/// trailing-newline convention is kept.
pub proof fn lemma_add_line_structure(t: Seq<char>, path: Seq<char>, groups: Seq<Seq<char>>)
    requires
        has_close_brace(t),
        ({
            let cb = rfind_char_spec(t, '}').unwrap();
            &&& cb >= 1
            &&& t[cb - 1] == '\n'
            &&& (cb == t.len() - 1 || (cb == t.len() - 2 && t[t.len() - 1] == '\n'))
        }),
        no_char(path, '\n'),
        forall|k: int| 0 <= k < groups.len() ==> no_char(groups[k], '\n'),
    ensures
        ({
            let tp = spec_add(t, path, groups);
            let n = lines_spec(t).len() as int;
            &&& n >= 1
            &&& lines_spec(t)[n - 1] == seq!['}']
            &&& lines_spec(tp) == lines_spec(t).take(n - 1) + seq![
                new_entry_line(path, groups),
                seq!['}'],
            ]
            &&& ends_with_char(tp, '\n') == ends_with_char(t, '\n')
        }),
{
    lemma_rfind_char_props(t, '}');
    let cb = rfind_char_spec(t, '}').unwrap();
    let nl = new_entry_line(path, groups);
    lemma_new_line_single(path, groups);
    let p_before = t.take(cb);
    assert(p_before.last() == t[cb - 1]);
    assert(ends_with_char(p_before, '\n'));
    let p0 = t.take(cb - 1);
    assert(p_before =~= p0 + seq!['\n']);
    let tail_nl = ends_with_char(t, '\n');
    let trail: Seq<char> = if tail_nl {
        seq!['\n']
    } else {
        Seq::<char>::empty()
    };
    if cb == t.len() - 1 {
        assert(!tail_nl);
    } else {
        assert(tail_nl);
    }
    assert(t =~= p0 + seq!['\n'] + seq!['}'] + trail);
    let tp = spec_add(t, path, groups);
    assert(tp =~= p0 + seq!['\n'] + nl + seq!['\n'] + (seq!['}'] + trail));
    assert(ends_with_char(tp, '\n') == tail_nl);
    let core = p0 + seq!['\n'] + nl + seq!['\n'] + seq!['}'];
    if tail_nl {
        assert(tp.take(tp.len() - 1) =~= core);
    } else {
        assert(tp =~= core);
        assert(tp.last() == '}');
    }
    lemma_split_concat(p0, nl + seq!['\n'] + seq!['}'], '\n');
    assert(p0 + seq!['\n'] + (nl + seq!['\n'] + seq!['}']) =~= core);
    lemma_split_concat(nl, seq!['}'], '\n');
    lemma_split_no_sep(nl, '\n');
    lemma_split_no_sep(seq!['}'], '\n');
    let a_lines = split_char_spec(p0, '\n');
    assert(lines_spec(tp) == split_char_spec(core, '\n'));
    assert(lines_spec(tp) =~= a_lines + seq![nl] + seq![seq!['}']]);
    let tcore = p0 + seq!['\n'] + seq!['}'];
    if tail_nl {
        assert(t.take(t.len() - 1) =~= tcore);
    } else {
        assert(t =~= tcore);
        assert(t.last() == '}');
    }
    lemma_split_concat(p0, seq!['}'], '\n');
    assert(lines_spec(t) == split_char_spec(tcore, '\n'));
    assert(lines_spec(t) =~= a_lines + seq![seq!['}']]);
    let n = lines_spec(t).len() as int;
    assert(lines_spec(t).take(n - 1) =~= a_lines);
    assert(lines_spec(tp) =~= lines_spec(t).take(n - 1) + seq![nl, seq!['}']]);
}

/// Multi-line accumulation: a body binding whose expression spans three
/// lines before its terminator is gathered into one logical line — the
/// three lines trimmed and joined by single spaces — and the entry
/// reported is exactly that logical line's entry.
pub proof fn lemma_three_line_binding_accumulates(l1: Seq<char>, l2: Seq<char>, l3: Seq<char>)
    requires
        trim_spec(l1).len() > 0,
        trim_spec(l1)[0] != '#',
        !ends_with_char(trim_spec(l1), ';'),
        trim_spec(l2).len() > 0,
        trim_spec(l2)[0] != '#',
        !ends_with_char(trim_spec(l2), ';'),
        trim_spec(l3).len() > 0,
        trim_spec(l3)[0] != '#',
        ends_with_char(trim_spec(l3), ';'),
    ensures
        ({
            let logical = trim_spec(l1) + seq![' '] + trim_spec(l2) + seq![' ']
                + trim_spec(l3);
            parse_body_spec(seq![l1, l2, l3], 0, Seq::empty()) == match entry_of_line(
                logical,
            ) {
                Some(e) => seq![e],
                None => Seq::<SecretEntryView>::empty(),
            }
        }),
{
    let t1 = trim_spec(l1);
    let t2 = trim_spec(l2);
    let t3 = trim_spec(l3);
    let ls = seq![l1, l2, l3];
    assert(ls[0] == l1 && ls[1] == l2 && ls[2] == l3);
    let cur2 = t1 + seq![' '] + t2;
    assert(cur2.last() == t2.last());
    assert(!ends_with_char(cur2, ';'));
    let logical = cur2 + seq![' '] + t3;
    assert(logical.last() == t3.last());
    assert(ends_with_char(logical, ';'));
    assert(t1 + seq![' '] + t2 + seq![' '] + t3 =~= logical);
    assert(parse_body_spec(ls, 3, Seq::empty()) =~= Seq::<SecretEntryView>::empty());
    assert(parse_body_spec(ls, 0, Seq::empty()) == parse_body_spec(ls, 1, t1));
    assert(parse_body_spec(ls, 1, t1) == parse_body_spec(ls, 2, cur2));
    assert(parse_body_spec(ls, 2, cur2) == match entry_of_line(logical) {
        Some(e) => seq![e] + parse_body_spec(ls, 3, Seq::empty()),
        None => parse_body_spec(ls, 3, Seq::empty()),
    });
    match entry_of_line(logical) {
        Some(e) => {
            assert(seq![e] + Seq::<SecretEntryView>::empty() =~= seq![e]);
        },
        None => {},
    }
}

/// Round trip of addition: parsing the text produced by adding an entry
/// yields the original parse with the prelude untouched and exactly one
/// entry appended, for the added path, with the added groups.
///
/// The original must parse, use the keyword-on-its-own-line form of the
/// prelude delimiters, close its body with a brace that opens its own line,
/// and have every body binding terminated; the path must pass the
/// evaluator allowlist and not begin like the marker, and each group name
/// must pass the identifier policy.
#[verifier::rlimit(60)]
pub proof fn lemma_parse_after_add(t: Seq<char>, path: Seq<char>, groups: Seq<Seq<char>>)
    requires
        spec_parse(t) is Some,
        find_spec(line_padded(t), let_nl()) is Some,
        find_spec(line_padded(t), in_nl()) is Some,
        ({
            let cb = rfind_char_spec(t, '}').unwrap();
            cb >= 1 && t[cb - 1] == '\n'
        }),
        ({
            let ins = in_start_spec(t).unwrap();
            let ob = find_char_from(t, '{', ins).unwrap();
            let cb = rfind_char_spec(t, '}').unwrap();
            body_residual(lines_spec(t.subrange(ob + 1, cb)), 0, Seq::empty())
                == Seq::<char>::empty()
        }),
        safe_secret_path(path),
        !crate::text::is_match(path, pk_tail(), 0),
        forall|k: int| 0 <= k < groups.len() ==> valid_group_name(groups[k]),
    ensures
        spec_parse(spec_add(t, path, groups)) == Some(
            ParsedSecretsView {
                groups: spec_parse(t).unwrap().groups,
                secrets: spec_parse(t).unwrap().secrets + seq![
                    SecretEntryView {
                        path: path,
                        groups: groups,
                        raw_expr: join_with(groups, group_sep()),
                    },
                ],
            },
        ),
{
    let pd = line_padded(t);
    let ls = let_start_spec(t).unwrap();
    let ins = in_start_spec(t).unwrap();
    assert(ins >= ls);
    let ob = find_char_from(t, '{', ins).unwrap();
    let cb = rfind_char_spec(t, '}').unwrap();
    assert(cb >= ob + 1);
    lemma_find_from_props(pd, let_nl(), 0);
    lemma_find_from_props(pd, in_nl(), 0);
    crate::text::lemma_find_char_from_props(t, '{', ins);
    lemma_rfind_char_props(t, '}');
    assert(crate::text::is_match(pd, let_nl(), ls));
    assert(crate::text::is_match(pd, in_nl(), ins));
    assert(forall|k: int| 1 <= k <= t.len() ==> pd[k] == t[k - 1]);
    // The prelude and body delimiters stand strictly apart.
    assert(t[ls] == 'l' && t[ls + 1] == 'e' && t[ls + 2] == 't') by {
        assert(pd.subrange(ls, ls + 5)[1] == pd[ls + 1]);
        assert(pd.subrange(ls, ls + 5)[2] == pd[ls + 2]);
        assert(pd.subrange(ls, ls + 5)[3] == pd[ls + 3]);
    }
    assert(pd[ins] == '\n' && t[ins] == 'i' && t[ins + 1] == 'n' && t[ins + 2] == '\n')
        by {
        assert(pd.subrange(ins, ins + 4)[0] == pd[ins]);
        assert(pd.subrange(ins, ins + 4)[1] == pd[ins + 1]);
        assert(pd.subrange(ins, ins + 4)[2] == pd[ins + 2]);
        assert(pd.subrange(ins, ins + 4)[3] == pd[ins + 3]);
    }
    assert(t[ob] == '{');
    assert(ins != ls && ins != ls + 1 && ins != ls + 2 && ins != ls + 3) by {
        assert(pd.subrange(ls, ls + 5)[0] == pd[ls]);
        assert(pd[ls] == '\n');
    }
    assert(ins >= ls + 4);
    assert(ob != ins && ob != ins + 1 && ob != ins + 2);
    assert(ob >= ins + 3);
    assert(ins + 3 <= cb - 1);
    assert(ls + 4 <= cb);
    // The edited text, piece by piece.
    let nline = new_entry_line(path, groups);
    let tp = spec_add(t, path, groups);
    assert(no_char(path, '\n')) by {
        assert forall|i: int| 0 <= i < path.len() implies path[i] != '\n' by {
            assert(safe_path_char(path[i]));
        }
    }
    lemma_valid_groups_no_char(groups, '\n');
    lemma_new_line_single(path, groups);
    assert(ends_with_char(t.take(cb), '\n')) by {
        assert(t.take(cb).last() == t[cb - 1]);
    }
    let trail: Seq<char> = if ends_with_char(t, '\n') {
        seq!['\n']
    } else {
        Seq::<char>::empty()
    };
    assert(tp =~= t.take(cb) + nline + seq!['\n', '}'] + trail);
    let cbp = cb + nline.len() as int + 1;
    assert(tp[cbp] == '}');
    assert(forall|j: int| cbp < j < tp.len() ==> tp[j] == '\n');
    crate::text::lemma_rfind_char_converse(tp, '}', cbp);
    assert(tp.take(cb) =~= t.take(cb));
    // The prelude delimiters are found unchanged.
    let pdp = line_padded(tp);
    assert(forall|k: int| 1 <= k <= tp.len() ==> pdp[k] == tp[k - 1]);
    assert(pdp.take(cb + 1) =~= pd.take(cb + 1));
    lemma_find_preserved(pd, pdp, let_nl(), cb + 1, ls);
    lemma_find_preserved(pd, pdp, in_nl(), cb + 1, ins);
    assert(let_start_spec(tp) == Some(ls));
    assert(in_start_spec(tp) == Some(ins));
    lemma_find_char_preserved(t, tp, '{', cb, ins, ob);
    // The prelude block is byte-identical.
    assert(tp.subrange(ls, ins) =~= t.subrange(ls, ins));
    assert(parse_groups_spec(lines_spec(tp.subrange(ls, ins)), 0) == parse_groups_spec(
        lines_spec(t.subrange(ls, ins)),
        0,
    ));
    // The body gains exactly one line.
    assert(ob + 1 < cb) by {
        if ob + 1 == cb {
            assert(t[cb - 1] == '{');
        }
    }
    let body = t.subrange(ob + 1, cb);
    let bodyp = tp.subrange(ob + 1, cbp);
    assert(body.last() == t[cb - 1]);
    let body0 = t.subrange(ob + 1, cb - 1);
    assert(body =~= body0 + seq!['\n']);
    assert(bodyp =~= body0 + seq!['\n'] + nline + seq!['\n']);
    assert(lines_spec(body) == split_char_spec(body0, '\n')) by {
        assert(body.take(body.len() - 1) =~= body0);
    }
    assert(ends_with_char(bodyp, '\n'));
    assert(bodyp.take(bodyp.len() - 1) =~= body0 + seq!['\n'] + nline);
    lemma_split_concat(body0, nline, '\n');
    lemma_split_no_sep(nline, '\n');
    assert(lines_spec(bodyp) =~= lines_spec(body) + seq![nline]);
    // Parsing the grown body appends exactly the new entry.
    lemma_parse_body_append(lines_spec(body), seq![nline], 0, Seq::empty());
    lemma_new_line_entry(path, groups);
    let entry = SecretEntryView {
        path: path,
        groups: groups,
        raw_expr: join_with(groups, group_sep()),
    };
    assert(parse_body_spec(lines_spec(bodyp), 0, Seq::empty()) == parse_body_spec(
        lines_spec(body),
        0,
        Seq::empty(),
    ) + seq![entry]);
    // Assemble the parse of the edited text.
    assert(cbp >= ob + 1);
    let expected = ParsedSecretsView {
        groups: spec_parse(t).unwrap().groups,
        secrets: spec_parse(t).unwrap().secrets + seq![entry],
    };
    assert(spec_parse(tp) == Some(expected));
}

/// A matching line before which no line matches is the first match.
proof fn lemma_first_match_converse(ls: Seq<Seq<char>>, q: Seq<char>, m: int)
    requires
        0 <= m < ls.len(),
        contains_spec(ls[m], q),
        forall|j: int| 0 <= j < m ==> !contains_spec(ls[j], q),
    ensures
        first_match_line(ls, q, 0) == Some(m),
{
    lemma_first_match_props(ls, q, 0);
    match first_match_line(ls, q, 0) {
        Some(a) => {
            assert(!(a < m));
            assert(!(m < a));
        },
        None => {
            assert(!contains_spec(ls[m], q));
        },
    }
}

} // verus!
