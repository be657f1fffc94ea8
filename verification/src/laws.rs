//! Document-level laws of the parser, stated over the mathematical model
//! that the entry points' contracts use.

use vstd::prelude::*;

use crate::error::ErrorV;
use crate::obj::ObjToken;
use crate::obj::ObjV;
use crate::obj::VertexV;
use crate::obj::lemma_parse_prefix_err_persists;
use crate::obj::line_step;
use crate::obj::normal_from_tokens;
use crate::obj::parse_doc;
use crate::obj::parse_lines;
use crate::obj::parse_lines_prefix;
use crate::obj::smoothing_from_tokens;
use crate::obj::token_of_word;
use crate::obj::uv_from_tokens;
use crate::obj::vertex_from_tokens;
use crate::text::lemma_split_on_len;
use crate::text::split_on;
use crate::text::tokens_of;

verus! {

/// A line whose first token is the `o` directive.
pub open spec fn is_object_line(line: Seq<char>) -> bool {
    token_of_word(tokens_of(line)[0]) == Some(ObjToken::O)
}

/// A line whose first token lies outside the vocabulary, which dispatch
/// skips.
pub open spec fn is_skipped_line(line: Seq<char>) -> bool {
    token_of_word(tokens_of(line)[0]) is None
}

/// A line whose first token is a directive that mutates the current
/// object record: any of the vocabulary but `o`.
pub open spec fn is_mutating_line(line: Seq<char>) -> bool {
    match token_of_word(tokens_of(line)[0]) {
        Some(t) => t != ObjToken::O,
        None => false,
    }
}

/// A `v` line whose data tokens parse as a vertex.
pub open spec fn is_vertex_data_line(line: Seq<char>) -> bool {
    let toks = tokens_of(line);
    token_of_word(toks[0]) == Some(ObjToken::V) && vertex_from_tokens(toks.drop_first()) is Ok
}

/// The vertex a well-formed `v` line carries.
pub open spec fn vertex_of_line(line: Seq<char>) -> VertexV {
    vertex_from_tokens(tokens_of(line).drop_first())->Ok_0
}

/// A line outside the vocabulary is skipped: it neither changes the
/// document nor raises a failure.
pub proof fn lemma_unrecognized_line_skipped(objs: Seq<ObjV>, line: Seq<char>)
    requires
        is_skipped_line(line),
    ensures
        line_step(objs, line) == Ok::<Seq<ObjV>, ErrorV>(objs),
{
}

proof fn lemma_prefix_same_upto(a: Seq<Seq<char>>, b: Seq<Seq<char>>, n: int)
    requires
        0 <= n,
        forall|i: int| 0 <= i < n ==> a[i] == b[i],
    ensures
        parse_lines_prefix(a, n) == parse_lines_prefix(b, n),
    decreases n,
{
    if n > 0 {
        lemma_prefix_same_upto(a, b, n - 1);
    }
}

/// Inserting a skipped line anywhere leaves the parse of the surrounding
/// lines unchanged.
pub proof fn lemma_skipped_line_inserted(lines: Seq<Seq<char>>, k: int, line: Seq<char>)
    requires
        0 <= k <= lines.len(),
        is_skipped_line(line),
    ensures
        parse_lines(lines.insert(k, line)) == parse_lines(lines),
{
    let ins = lines.insert(k, line);
    assert(forall|i: int| 0 <= i < k ==> ins[i] == lines[i]);
    lemma_prefix_same_upto(ins, lines, k);
    assert(ins[k] == line);
    assert(parse_lines_prefix(ins, k + 1) == parse_lines_prefix(lines, k));
    lemma_prefix_shifted(lines, k, line, ins.len() as int);
    assert(parse_lines_prefix(ins, ins.len() as int) == parse_lines_prefix(
        lines,
        lines.len() as int,
    ));
}

proof fn lemma_prefix_shifted(lines: Seq<Seq<char>>, k: int, line: Seq<char>, n: int)
    requires
        0 <= k <= lines.len(),
        is_skipped_line(line),
        k + 1 <= n <= lines.len() + 1,
    ensures
        parse_lines_prefix(lines.insert(k, line), n) == parse_lines_prefix(lines, n - 1),
    decreases n,
{
    let ins = lines.insert(k, line);
    if n == k + 1 {
        assert(forall|i: int| 0 <= i < k ==> ins[i] == lines[i]);
        lemma_prefix_same_upto(ins, lines, k);
        assert(ins[k] == line);
    } else {
        lemma_prefix_shifted(lines, k, line, n - 1);
        assert(ins[n - 1] == lines[n - 2]);
    }
}

proof fn lemma_skipped_prefix(lines: Seq<Seq<char>>, k: int)
    requires
        0 <= k <= lines.len(),
        forall|j: int| 0 <= j < k ==> is_skipped_line(#[trigger] lines[j]),
    ensures
        parse_lines_prefix(lines, k) == Ok::<Seq<ObjV>, ErrorV>(Seq::<ObjV>::empty()),
    decreases k,
{
    if k > 0 {
        lemma_skipped_prefix(lines, k - 1);
    }
}

/// A mutating directive before any object declaration fails with the
/// missing-object failure, whatever follows it.
pub proof fn lemma_missing_object_declaration(lines: Seq<Seq<char>>, k: int)
    requires
        0 <= k < lines.len(),
        is_mutating_line(lines[k]),
        forall|j: int| 0 <= j < k ==> is_skipped_line(#[trigger] lines[j]),
    ensures
        parse_lines(lines) == Err::<Seq<ObjV>, ErrorV>(ErrorV::MissingObjectDeclaration),
{
    lemma_skipped_prefix(lines, k);
    assert(parse_lines_prefix(lines, k + 1) == Err::<Seq<ObjV>, ErrorV>(
        ErrorV::MissingObjectDeclaration,
    ));
    lemma_parse_prefix_err_persists(lines, k + 1, lines.len() as int);
}

/// An `s` line whose argument parses.
pub open spec fn is_smoothing_data_line(line: Seq<char>) -> bool {
    let toks = tokens_of(line);
    token_of_word(toks[0]) == Some(ObjToken::S)
        && smoothing_from_tokens(toks.drop_first()) is Ok
}

/// The smoothing value a well-formed `s` line carries.
pub open spec fn smoothing_of_line(line: Seq<char>) -> u8 {
    smoothing_from_tokens(tokens_of(line).drop_first())->Ok_0
}

/// Two smoothing lines aimed at the same document: the later line alone
/// decides the smoothing value, as if the earlier one had not been there.
pub proof fn lemma_smoothing_last_write_wins(objs: Seq<ObjV>, l1: Seq<char>, l2: Seq<char>)
    requires
        objs.len() > 0,
        is_smoothing_data_line(l1),
        is_smoothing_data_line(l2),
    ensures
        line_step(objs, l1) is Ok,
        line_step(line_step(objs, l1)->Ok_0, l2) == line_step(objs, l2),
{
    let v1 = smoothing_of_line(l1);
    let after1 = line_step(objs, l1)->Ok_0;
    assert(after1 =~= objs.update(objs.len() - 1, objs.last().with_smoothing(v1)));
    assert(after1.len() == objs.len());
    let v2 = smoothing_of_line(l2);
    assert(after1.last().with_smoothing(v2) == objs.last().with_smoothing(v2));
    assert(after1.update(after1.len() - 1, after1.last().with_smoothing(v2)) =~= objs.update(
        objs.len() - 1,
        objs.last().with_smoothing(v2),
    ));
}

proof fn lemma_prefix_single_object_vertices(lines: Seq<Seq<char>>, n: int)
    requires
        1 <= n <= lines.len(),
        is_object_line(lines[0]),
        forall|i: int| 1 <= i < n ==> is_vertex_data_line(#[trigger] lines[i]),
    ensures
        parse_lines_prefix(lines, n) is Ok,
        parse_lines_prefix(lines, n)->Ok_0.len() == 1,
        parse_lines_prefix(lines, n)->Ok_0[0].vertices.len() == n - 1,
        forall|i: int|
            1 <= i < n ==> parse_lines_prefix(lines, n)->Ok_0[0].vertices[i - 1]
                == vertex_of_line(#[trigger] lines[i]),
    decreases n,
{
    if n == 1 {
    } else {
        lemma_prefix_single_object_vertices(lines, n - 1);
        let objs = parse_lines_prefix(lines, n - 1)->Ok_0;
        let v = vertex_of_line(lines[n - 1]);
        let stepped = parse_lines_prefix(lines, n)->Ok_0;
        assert(stepped =~= objs.update(0, objs[0].with_vertex(v)));
        assert(stepped[0].vertices =~= objs[0].vertices.push(v));
    }
}

/// One `o` line followed by well-formed `v` lines parses to exactly one
/// object record whose vertex list holds those lines' vertices in input
/// order.
pub proof fn lemma_single_object_vertex_lines(lines: Seq<Seq<char>>)
    requires
        lines.len() >= 1,
        is_object_line(lines[0]),
        forall|i: int| 1 <= i < lines.len() ==> is_vertex_data_line(#[trigger] lines[i]),
    ensures
        parse_lines(lines) is Ok,
        parse_lines(lines)->Ok_0.len() == 1,
        parse_lines(lines)->Ok_0[0].vertices.len() == lines.len() - 1,
        forall|i: int|
            1 <= i < lines.len() ==> parse_lines(lines)->Ok_0[0].vertices[i - 1] == vertex_of_line(
                #[trigger] lines[i],
            ),
{
    lemma_prefix_single_object_vertices(lines, lines.len() as int);
}

/// The same, stated of a whole text: one `o` line and then well-formed
/// `v` lines parse to one object record holding those vertices in order.
pub proof fn lemma_single_object_vertex_text(text: Seq<char>)
    requires
        is_object_line(split_on(text, '\n')[0]),
        forall|i: int|
            1 <= i < split_on(text, '\n').len() ==> is_vertex_data_line(
                #[trigger] split_on(text, '\n')[i],
            ),
    ensures
        parse_doc(text) is Ok,
        parse_doc(text)->Ok_0.len() == 1,
        parse_doc(text)->Ok_0[0].vertices.len() == split_on(
            text,
            '\n',
        ).len() - 1,
        forall|i: int|
            1 <= i < split_on(text, '\n').len() ==> parse_doc(
                text,
            )->Ok_0[0].vertices[i - 1] == vertex_of_line(
                #[trigger] split_on(text, '\n')[i],
            ),
{
    let lines = split_on(text, '\n');
    lemma_split_on_len(text, '\n');
    lemma_single_object_vertex_lines(lines);
}

proof fn lemma_line_step_wf(objs: Seq<ObjV>, line: Seq<char>)
    requires
        forall|i: int| 0 <= i < objs.len() ==> (#[trigger] objs[i]).wf(),
        line_step(objs, line) is Ok,
    ensures
        forall|i: int|
            0 <= i < line_step(objs, line)->Ok_0.len() ==> (#[trigger] line_step(
                objs,
                line,
            )->Ok_0[i]).wf(),
{
    let toks = tokens_of(line);
    let tail = toks.drop_first();
    let out = line_step(objs, line)->Ok_0;
    match token_of_word(toks[0]) {
        None => {},
        Some(ObjToken::O) => {},
        Some(ObjToken::V) => {
            let v = vertex_from_tokens(tail)->Ok_0;
            assert(v.wf());
            assert(out[objs.len() - 1].vertices.last() == v);
            assert(forall|j: int|
                0 <= j < objs.last().vertices.len() ==> out[objs.len() - 1].vertices[j]
                    == objs.last().vertices[j]);
            assert(out[objs.len() - 1].wf());
        },
        Some(ObjToken::Vn) => {
            let v = normal_from_tokens(tail)->Ok_0;
            assert(v.wf());
            assert(forall|j: int|
                0 <= j < objs.last().normals.len() ==> out[objs.len() - 1].normals[j]
                    == objs.last().normals[j]);
            assert(out[objs.len() - 1].wf());
        },
        Some(ObjToken::Vt) => {
            let v = uv_from_tokens(tail)->Ok_0;
            assert(v.wf());
            assert(forall|j: int|
                0 <= j < objs.last().uv_textures.len() ==> out[objs.len() - 1].uv_textures[j]
                    == objs.last().uv_textures[j]);
            assert(out[objs.len() - 1].wf());
        },
        Some(ObjToken::S) => {
            assert(out[objs.len() - 1].wf());
        },
        Some(ObjToken::F) => {
            assert(out[objs.len() - 1].wf());
        },
    }
}

proof fn lemma_prefix_wf(lines: Seq<Seq<char>>, n: int)
    requires
        0 <= n,
        parse_lines_prefix(lines, n) is Ok,
    ensures
        forall|i: int|
            0 <= i < parse_lines_prefix(lines, n)->Ok_0.len() ==> (#[trigger] parse_lines_prefix(
                lines,
                n,
            )->Ok_0[i]).wf(),
    decreases n,
{
    if n > 0 {
        lemma_prefix_wf(lines, n - 1);
        lemma_line_step_wf(parse_lines_prefix(lines, n - 1)->Ok_0, lines[n - 1]);
    }
}

/// Every object record a successful parse hands back is well formed:
/// each stored coordinate token lies in the float grammar, so converting
/// it downstream cannot fail.
pub proof fn lemma_parse_results_wf(text: Seq<char>)
    requires
        parse_doc(text) is Ok,
    ensures
        forall|i: int|
            0 <= i < parse_doc(text)->Ok_0.len() ==> (#[trigger] parse_doc(
                text,
            )->Ok_0[i]).wf(),
{
    let lines = split_on(text, '\n');
    lemma_prefix_wf(lines, lines.len() as int);
}

} // verus!
