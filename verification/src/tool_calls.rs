//! The tool calls of a streamed model reply.
//!
//! A streamed reply announces each tool call in pieces ("chunks"). Every chunk
//! names the call it belongs to by an index; the id and the function name of a
//! call arrive in some chunk, and its arguments arrive spread over several
//! chunks. This module models chunks and calls and states, as spec functions,
//! which calls a sequence of chunks describes.

use vstd::prelude::*;

verus! {

/// The function part of a streamed tool-call chunk.
#[derive(Clone, Debug)]
pub struct FunctionCallStream {
    pub name: Option<String>,
    pub arguments: Option<String>,
}

/// One streamed piece of a tool call.
#[derive(Clone, Debug)]
pub struct ToolCallChunk {
    pub index: u32,
    pub id: Option<String>,
    pub function: Option<FunctionCallStream>,
}

/// The function that a tool call asks for, and its arguments (JSON text).
#[derive(Clone, Debug, PartialEq, Eq)]
pub struct FunctionCall {
    pub name: String,
    pub arguments: String,
}

/// A complete tool call.
#[derive(Clone, Debug, PartialEq, Eq)]
pub struct ToolCall {
    pub id: String,
    pub function: FunctionCall,
}

/// Why the chunks of a reply do not make up complete tool calls.
#[derive(Clone, Copy, Debug, PartialEq, Eq, Structural)]
pub enum ToolCallError {
    /// Some call received no id.
    MissingId,
    /// Some call received an id but no function name.
    MissingName,
}

impl ToolCallError {
    /// The message shown for the error.
    pub fn message(&self) -> (r: String)
        ensures
            *self == ToolCallError::MissingId ==> r@ == "Missing tool call id"@,
            *self == ToolCallError::MissingName ==> r@ == "Missing tool call name"@,
    {
        match self {
            ToolCallError::MissingId => "Missing tool call id".to_owned(),
            ToolCallError::MissingName => "Missing tool call name".to_owned(),
        }
    }
}

/// The mathematical model of a [`ToolCall`].
pub struct ToolCallView {
    pub id: Seq<char>,
    pub name: Seq<char>,
    pub arguments: Seq<char>,
}

impl View for ToolCall {
    type V = ToolCallView;

    open spec fn view(&self) -> ToolCallView {
        ToolCallView { id: self.id@, name: self.function.name@, arguments: self.function.arguments@ }
    }
}

/// The models of a sequence of calls.
pub open spec fn calls_view(calls: Seq<ToolCall>) -> Seq<ToolCallView> {
    calls.map_values(|c: ToolCall| c@)
}

/// The id carried by a chunk, if any.
pub open spec fn chunk_id(c: ToolCallChunk) -> Option<Seq<char>> {
    match c.id {
        Some(s) => Some(s@),
        None => None,
    }
}

/// The function name carried by a chunk, if any.
pub open spec fn chunk_name(c: ToolCallChunk) -> Option<Seq<char>> {
    match c.function {
        Some(f) => match f.name {
            Some(s) => Some(s@),
            None => None,
        },
        None => None,
    }
}

/// The piece of arguments carried by a chunk (empty when it carries none).
pub open spec fn chunk_arguments(c: ToolCallChunk) -> Seq<char> {
    match c.function {
        Some(f) => match f.arguments {
            Some(s) => s@,
            None => Seq::empty(),
        },
        None => Seq::empty(),
    }
}

/// Whether some chunk belongs to the call with index `k`.
pub open spec fn has_index(chunks: Seq<ToolCallChunk>, k: u32) -> bool {
    exists|t: int| 0 <= t < chunks.len() && chunks[t].index == k
}

/// The id of call `k`: the last id that a chunk of that call carries.
pub open spec fn last_id(chunks: Seq<ToolCallChunk>, k: u32) -> Option<Seq<char>>
    decreases chunks.len(),
{
    if chunks.len() == 0 {
        None
    } else if chunks.last().index == k && chunk_id(chunks.last()) is Some {
        chunk_id(chunks.last())
    } else {
        last_id(chunks.drop_last(), k)
    }
}

/// The function name of call `k`: the last name that a chunk of that call carries.
pub open spec fn last_name(chunks: Seq<ToolCallChunk>, k: u32) -> Option<Seq<char>>
    decreases chunks.len(),
{
    if chunks.len() == 0 {
        None
    } else if chunks.last().index == k && chunk_name(chunks.last()) is Some {
        chunk_name(chunks.last())
    } else {
        last_name(chunks.drop_last(), k)
    }
}

/// The arguments of call `k`: the pieces of its chunks, joined in order.
pub open spec fn joined_arguments(chunks: Seq<ToolCallChunk>, k: u32) -> Seq<char>
    decreases chunks.len(),
{
    if chunks.len() == 0 {
        Seq::empty()
    } else if chunks.last().index == k {
        joined_arguments(chunks.drop_last(), k) + chunk_arguments(chunks.last())
    } else {
        joined_arguments(chunks.drop_last(), k)
    }
}

/// The call with index `k`, or why it is incomplete.
pub open spec fn call_for(chunks: Seq<ToolCallChunk>, k: u32) -> Result<ToolCallView, ToolCallError> {
    match last_id(chunks, k) {
        None => Err(ToolCallError::MissingId),
        Some(id) => match last_name(chunks, k) {
            None => Err(ToolCallError::MissingName),
            Some(name) => Ok(ToolCallView { id, name, arguments: joined_arguments(chunks, k) }),
        },
    }
}

/// Every element is smaller than the ones after it.
pub open spec fn strictly_increasing(s: Seq<u32>) -> bool {
    forall|a: int, b: int| 0 <= a < b < s.len() ==> s[a] < s[b]
}

/// `s` lists the indices that occur in `chunks`, each once, in increasing order.
pub open spec fn is_index_order(s: Seq<u32>, chunks: Seq<ToolCallChunk>) -> bool {
    &&& strictly_increasing(s)
    &&& forall|k: u32| s.contains(k) <==> has_index(chunks, k)
}

/// The indices that occur in `chunks`, each once, in increasing order.
pub open spec fn index_order(chunks: Seq<ToolCallChunk>) -> Seq<u32> {
    choose|s: Seq<u32>| is_index_order(s, chunks)
}

/// The calls with the indices `keys`, in that order; or the error of the first
/// of them that is incomplete.
pub open spec fn calls_for(keys: Seq<u32>, chunks: Seq<ToolCallChunk>) -> Result<Seq<ToolCallView>, ToolCallError>
    decreases keys.len(),
{
    if keys.len() == 0 {
        Ok(Seq::empty())
    } else {
        match call_for(chunks, keys[0]) {
            Err(e) => Err(e),
            Ok(c) => match calls_for(keys.drop_first(), chunks) {
                Err(e) => Err(e),
                Ok(rest) => Ok(seq![c] + rest),
            },
        }
    }
}

/// The tool calls that a reply's chunks describe: one per index that occurs,
/// in increasing order of index; or the error of the first incomplete one.
pub open spec fn assembled_calls(chunks: Seq<ToolCallChunk>) -> Result<Seq<ToolCallView>, ToolCallError> {
    calls_for(index_order(chunks), chunks)
}

/// The model of a result of assembling calls.
pub open spec fn assembled_view(r: Result<Vec<ToolCall>, ToolCallError>) -> Result<Seq<ToolCallView>, ToolCallError> {
    match r {
        Ok(v) => Ok(calls_view(v@)),
        Err(e) => Err(e),
    }
}

/// Two increasing sequences with the same elements are equal.
pub proof fn lemma_increasing_unique(a: Seq<u32>, b: Seq<u32>)
    requires
        strictly_increasing(a),
        strictly_increasing(b),
        forall|k: u32| a.contains(k) <==> b.contains(k),
    ensures
        a == b,
    decreases a.len(),
{
    if a.len() == 0 {
        if b.len() > 0 {
            assert(b.contains(b[0]));
        }
        assert(a =~= b);
    } else {
        assert(a.contains(a[0]));
        assert(b.len() > 0);
        assert(b.contains(b[0]));
        let i: int = choose|i: int| 0 <= i < b.len() && b[i] == a[0];
        let j: int = choose|j: int| 0 <= j < a.len() && a[j] == b[0];
        assert(b[0] <= b[i]);
        assert(a[0] <= a[j]);
        assert(a[0] == b[0]);
        let a1 = a.drop_first();
        let b1 = b.drop_first();
        assert forall|k: u32| a1.contains(k) implies b1.contains(k) by {
            let p: int = choose|p: int| 0 <= p < a1.len() && a1[p] == k;
            assert(a[p + 1] == k);
            assert(a.contains(k));
            let q: int = choose|q: int| 0 <= q < b.len() && b[q] == k;
            assert(q != 0);
            assert(b1[q - 1] == k);
        }
        assert forall|k: u32| b1.contains(k) implies a1.contains(k) by {
            let p: int = choose|p: int| 0 <= p < b1.len() && b1[p] == k;
            assert(b[p + 1] == k);
            assert(b.contains(k));
            let q: int = choose|q: int| 0 <= q < a.len() && a[q] == k;
            assert(q != 0);
            assert(a1[q - 1] == k);
        }
        lemma_increasing_unique(a1, b1);
        assert(a =~= seq![a[0]] + a1);
        assert(b =~= seq![b[0]] + b1);
    }
}

/// Any sequence in increasing index order is the index order.
pub proof fn lemma_index_order_is(s: Seq<u32>, chunks: Seq<ToolCallChunk>)
    requires
        is_index_order(s, chunks),
    ensures
        index_order(chunks) == s,
{
    let o = index_order(chunks);
    assert(is_index_order(o, chunks));
    lemma_increasing_unique(o, s);
}

/// Inserting `x` where it belongs keeps a sequence increasing and adds `x`.
pub proof fn lemma_insert_increasing(s: Seq<u32>, p: int, x: u32)
    requires
        strictly_increasing(s),
        0 <= p <= s.len(),
        forall|q: int| 0 <= q < p ==> s[q] < x,
        p < s.len() ==> x < s[p],
    ensures
        strictly_increasing(s.insert(p, x)),
        forall|k: u32| s.insert(p, x).contains(k) <==> (s.contains(k) || k == x),
{
    let t = s.insert(p, x);
    assert forall|a: int, b: int| 0 <= a < b < t.len() implies t[a] < t[b] by {
        if b < p {
        } else if b == p {
            assert(t[a] == s[a]);
        } else if a < p {
            assert(s[a] < s[b - 1] || a == b - 1);
        } else if a == p {
            assert(p < s.len());
            assert(s[p] <= s[b - 1]) by {
                if p < b - 1 {
                }
            }
        } else {
        }
    }
    assert forall|k: u32| t.contains(k) implies (s.contains(k) || k == x) by {
        let i: int = choose|i: int| 0 <= i < t.len() && t[i] == k;
        if i < p {
            assert(s[i] == k);
        } else if i > p {
            assert(s[i - 1] == k);
        }
    }
    assert forall|k: u32| (s.contains(k) || k == x) implies t.contains(k) by {
        if k == x {
            assert(t[p] == x);
        } else {
            let i: int = choose|i: int| 0 <= i < s.len() && s[i] == k;
            if i < p {
                assert(t[i] == k);
            } else {
                assert(t[i + 1] == k);
            }
        }
    }
}

/// What one more chunk does to the id, name and arguments of call `k`.
pub proof fn lemma_step(chunks: Seq<ToolCallChunk>, i: int, k: u32)
    requires
        0 <= i < chunks.len(),
    ensures
        last_id(chunks.take(i + 1), k) == (if chunks[i].index == k && chunk_id(chunks[i]) is Some {
            chunk_id(chunks[i])
        } else {
            last_id(chunks.take(i), k)
        }),
        last_name(chunks.take(i + 1), k) == (if chunks[i].index == k && chunk_name(chunks[i]) is Some {
            chunk_name(chunks[i])
        } else {
            last_name(chunks.take(i), k)
        }),
        joined_arguments(chunks.take(i + 1), k) == (if chunks[i].index == k {
            joined_arguments(chunks.take(i), k) + chunk_arguments(chunks[i])
        } else {
            joined_arguments(chunks.take(i), k)
        }),
        has_index(chunks.take(i + 1), k) == (has_index(chunks.take(i), k) || chunks[i].index == k),
{
    let p = chunks.take(i + 1);
    assert(p.drop_last() =~= chunks.take(i));
    assert(p.last() == chunks[i]);
    if has_index(p, k) {
        let t: int = choose|t: int| 0 <= t < p.len() && p[t].index == k;
        if t < i {
            assert(chunks.take(i)[t].index == k);
        }
    }
    if has_index(chunks.take(i), k) {
        let t: int = choose|t: int| 0 <= t < i && chunks.take(i)[t].index == k;
        assert(p[t].index == k);
    }
    if chunks[i].index == k {
        assert(p[i].index == k);
    }
}

/// A call that no chunk belongs to has no id, no name and no arguments.
pub proof fn lemma_absent(chunks: Seq<ToolCallChunk>, k: u32)
    requires
        !has_index(chunks, k),
    ensures
        last_id(chunks, k) is None,
        last_name(chunks, k) is None,
        joined_arguments(chunks, k) == Seq::<char>::empty(),
    decreases chunks.len(),
{
    if chunks.len() > 0 {
        let d = chunks.drop_last();
        assert(chunks.last().index != k) by {
            assert(chunks[chunks.len() - 1].index == chunks.last().index);
        }
        assert(!has_index(d, k)) by {
            if has_index(d, k) {
                let t: int = choose|t: int| 0 <= t < d.len() && d[t].index == k;
                assert(chunks[t].index == k);
            }
        }
        lemma_absent(d, k);
    }
}

/// Unfolds `calls_for` one key further.
pub proof fn lemma_calls_for_skip(keys: Seq<u32>, chunks: Seq<ToolCallChunk>, j: int)
    requires
        0 <= j < keys.len(),
    ensures
        calls_for(keys.skip(j), chunks) == (match call_for(chunks, keys[j]) {
            Err(e) => Err(e),
            Ok(c) => match calls_for(keys.skip(j + 1), chunks) {
                Err(e) => Err(e),
                Ok(rest) => Ok(seq![c] + rest),
            },
        }),
{
    assert(keys.skip(j).drop_first() =~= keys.skip(j + 1));
    assert(keys.skip(j)[0] == keys[j]);
}

/// What appending a chunk does to the id, name, arguments and presence of call `k`.
pub proof fn lemma_push(a: Seq<ToolCallChunk>, d: ToolCallChunk, k: u32)
    ensures
        last_id(a.push(d), k) == (if d.index == k && chunk_id(d) is Some {
            chunk_id(d)
        } else {
            last_id(a, k)
        }),
        last_name(a.push(d), k) == (if d.index == k && chunk_name(d) is Some {
            chunk_name(d)
        } else {
            last_name(a, k)
        }),
        joined_arguments(a.push(d), k) == (if d.index == k {
            joined_arguments(a, k) + chunk_arguments(d)
        } else {
            joined_arguments(a, k)
        }),
        has_index(a.push(d), k) == (has_index(a, k) || d.index == k),
{
    let b = a.push(d);
    assert(b.take(a.len() as int) =~= a);
    assert(b.take(a.len() + 1int) =~= b);
    lemma_step(b, a.len() as int, k);
}

/// Where `x`, absent from an increasing sequence, belongs in it.
proof fn lemma_position(s: Seq<u32>, x: u32) -> (p: int)
    requires
        strictly_increasing(s),
        !s.contains(x),
    ensures
        0 <= p <= s.len(),
        forall|q: int| 0 <= q < p ==> s[q] < x,
        p < s.len() ==> x < s[p],
    decreases s.len(),
{
    if s.len() == 0 {
        0
    } else if s.last() < x {
        assert forall|q: int| 0 <= q < s.len() implies s[q] < x by {
            if q < s.len() - 1 {
                assert(s[q] < s[s.len() - 1]);
            }
        }
        s.len() as int
    } else {
        let d = s.drop_last();
        assert(!d.contains(x)) by {
            if d.contains(x) {
                let i: int = choose|i: int| 0 <= i < d.len() && d[i] == x;
                assert(s[i] == x);
            }
        }
        assert(s.last() != x) by {
            assert(s[s.len() - 1] == s.last());
        }
        let p: int = lemma_position(d, x);
        assert forall|q: int| 0 <= q < p implies s[q] < x by {
            assert(d[q] == s[q]);
        }
        assert(p < s.len() ==> x < s[p]) by {
            if p == s.len() - 1 {
            } else if p < d.len() {
                assert(d[p] == s[p]);
            }
        }
        p
    }
}

/// The indices of any chunks can be listed in increasing order.
pub proof fn lemma_index_order_exists(chunks: Seq<ToolCallChunk>)
    ensures
        is_index_order(index_order(chunks), chunks),
    decreases chunks.len(),
{
    if chunks.len() == 0 {
        let s = Seq::<u32>::empty();
        assert forall|k: u32| s.contains(k) <==> has_index(chunks, k) by {}
        assert(is_index_order(s, chunks));
    } else {
        let d = chunks.drop_last();
        let x = chunks.last();
        lemma_index_order_exists(d);
        let s0 = index_order(d);
        assert(d.push(x) =~= chunks);
        assert forall|k: u32| #![auto] has_index(chunks, k) == (has_index(d, k) || x.index == k) by {
            lemma_push(d, x, k);
        }
        if s0.contains(x.index) {
            assert(is_index_order(s0, chunks));
        } else {
            let p: int = lemma_position(s0, x.index);
            lemma_insert_increasing(s0, p, x.index);
            assert(is_index_order(s0.insert(p, x.index), chunks));
        }
    }
}

/// Two sequences of chunks describe the same calls, index by index.
pub open spec fn same_calls(a: Seq<ToolCallChunk>, b: Seq<ToolCallChunk>) -> bool {
    forall|k: u32|
        #![trigger has_index(a, k)]
        #![trigger has_index(b, k)]
        #![trigger last_id(a, k)]
        #![trigger last_id(b, k)]
        #![trigger last_name(a, k)]
        #![trigger last_name(b, k)]
        #![trigger joined_arguments(a, k)]
        #![trigger joined_arguments(b, k)]
        {
            &&& has_index(a, k) == has_index(b, k)
            &&& last_id(a, k) == last_id(b, k)
            &&& last_name(a, k) == last_name(b, k)
            &&& joined_arguments(a, k) == joined_arguments(b, k)
        }
}

proof fn lemma_calls_for_same(keys: Seq<u32>, a: Seq<ToolCallChunk>, b: Seq<ToolCallChunk>)
    requires
        same_calls(a, b),
    ensures
        calls_for(keys, a) == calls_for(keys, b),
    decreases keys.len(),
{
    if keys.len() > 0 {
        let k = keys[0];
        assert(last_id(a, k) == last_id(b, k));
        assert(last_name(a, k) == last_name(b, k));
        assert(joined_arguments(a, k) == joined_arguments(b, k));
        lemma_calls_for_same(keys.drop_first(), a, b);
    }
}

/// Chunks that describe the same calls, index by index, assemble alike.
pub proof fn lemma_same_calls_assemble(a: Seq<ToolCallChunk>, b: Seq<ToolCallChunk>)
    requires
        same_calls(a, b),
    ensures
        assembled_calls(a) == assembled_calls(b),
{
    lemma_index_order_exists(a);
    let s = index_order(a);
    assert forall|k: u32| s.contains(k) <==> has_index(b, k) by {
        assert(has_index(a, k) == has_index(b, k));
    }
    lemma_index_order_is(s, b);
    lemma_calls_for_same(s, a, b);
}

/// Appending the same chunk to chunks that describe the same calls keeps them so.
proof fn lemma_same_calls_push(a: Seq<ToolCallChunk>, b: Seq<ToolCallChunk>, d: ToolCallChunk)
    requires
        same_calls(a, b),
    ensures
        same_calls(a.push(d), b.push(d)),
{
    assert forall|k: u32| #![auto] {
        &&& has_index(a.push(d), k) == has_index(b.push(d), k)
        &&& last_id(a.push(d), k) == last_id(b.push(d), k)
        &&& last_name(a.push(d), k) == last_name(b.push(d), k)
        &&& joined_arguments(a.push(d), k) == joined_arguments(b.push(d), k)
    } by {
        lemma_push(a, d, k);
        lemma_push(b, d, k);
        assert(has_index(a, k) == has_index(b, k));
        assert(last_id(a, k) == last_id(b, k));
        assert(last_name(a, k) == last_name(b, k));
        assert(joined_arguments(a, k) == joined_arguments(b, k));
    }
}

/// Appending the same chunks to chunks that describe the same calls keeps them so.
proof fn lemma_same_calls_append(a: Seq<ToolCallChunk>, b: Seq<ToolCallChunk>, post: Seq<ToolCallChunk>)
    requires
        same_calls(a, b),
    ensures
        same_calls(a + post, b + post),
    decreases post.len(),
{
    if post.len() > 0 {
        let d = post.last();
        let p = post.drop_last();
        lemma_same_calls_append(a, b, p);
        lemma_same_calls_push(a + p, b + p, d);
        assert((a + p).push(d) =~= a + post);
        assert((b + p).push(d) =~= b + post);
    }
}

/// The arguments of a call may arrive in any number of pieces: a chunk gives
/// the same calls as two consecutive chunks of the same call, the first with
/// the chunk's id and name and the start of its arguments, the second with
/// the rest of its arguments and neither id nor name.
pub proof fn law_arguments_split(
    pre: Seq<ToolCallChunk>,
    c: ToolCallChunk,
    c1: ToolCallChunk,
    c2: ToolCallChunk,
    post: Seq<ToolCallChunk>,
)
    requires
        c1.index == c.index,
        c2.index == c.index,
        chunk_id(c1) == chunk_id(c),
        chunk_name(c1) == chunk_name(c),
        chunk_id(c2) is None,
        chunk_name(c2) is None,
        chunk_arguments(c1) + chunk_arguments(c2) == chunk_arguments(c),
    ensures
        assembled_calls(pre + seq![c1, c2] + post) == assembled_calls(pre + seq![c] + post),
{
    let a = pre.push(c1).push(c2);
    let b = pre.push(c);
    assert forall|k: u32| #![auto] {
        &&& has_index(a, k) == has_index(b, k)
        &&& last_id(a, k) == last_id(b, k)
        &&& last_name(a, k) == last_name(b, k)
        &&& joined_arguments(a, k) == joined_arguments(b, k)
    } by {
        lemma_push(pre.push(c1), c2, k);
        lemma_push(pre, c1, k);
        lemma_push(pre, c, k);
        if c.index == k {
            assert(joined_arguments(pre, k) + chunk_arguments(c1) + chunk_arguments(c2)
                =~= joined_arguments(pre, k) + (chunk_arguments(c1) + chunk_arguments(c2)));
        }
    }
    lemma_same_calls_append(a, b, post);
    assert(pre + seq![c1, c2] + post =~= a + post);
    assert(pre + seq![c] + post =~= b + post);
    lemma_same_calls_assemble(a + post, b + post);
}

/// Chunks of different calls may arrive interleaved in any order: swapping
/// two neighbouring chunks of different calls gives the same calls.
pub proof fn law_interleaving(
    pre: Seq<ToolCallChunk>,
    x: ToolCallChunk,
    y: ToolCallChunk,
    post: Seq<ToolCallChunk>,
)
    requires
        x.index != y.index,
    ensures
        assembled_calls(pre + seq![x, y] + post) == assembled_calls(pre + seq![y, x] + post),
{
    let a = pre.push(x).push(y);
    let b = pre.push(y).push(x);
    assert forall|k: u32| #![auto] {
        &&& has_index(a, k) == has_index(b, k)
        &&& last_id(a, k) == last_id(b, k)
        &&& last_name(a, k) == last_name(b, k)
        &&& joined_arguments(a, k) == joined_arguments(b, k)
    } by {
        lemma_push(pre.push(x), y, k);
        lemma_push(pre, x, k);
        lemma_push(pre.push(y), x, k);
        lemma_push(pre, y, k);
    }
    lemma_same_calls_append(a, b, post);
    assert(pre + seq![x, y] + post =~= a + post);
    assert(pre + seq![y, x] + post =~= b + post);
    lemma_same_calls_assemble(a + post, b + post);
}

/// The chunks of the call with index `k`, in the order in which they came.
pub open spec fn chunks_of(chunks: Seq<ToolCallChunk>, k: u32) -> Seq<ToolCallChunk> {
    chunks.filter(|c: ToolCallChunk| c.index == k)
}

/// A call's presence, id, name and arguments depend on its own chunks alone.
proof fn lemma_chunks_of(chunks: Seq<ToolCallChunk>, k: u32)
    ensures
        has_index(chunks, k) == (chunks_of(chunks, k).len() > 0),
        last_id(chunks, k) == last_id(chunks_of(chunks, k), k),
        last_name(chunks, k) == last_name(chunks_of(chunks, k), k),
        joined_arguments(chunks, k) == joined_arguments(chunks_of(chunks, k), k),
    decreases chunks.len(),
{
    reveal(Seq::filter);
    if chunks.len() == 0 {
        assert(!has_index(chunks, k));
        assert(chunks_of(chunks, k) =~= chunks);
    } else {
        let a = chunks.drop_last();
        let d = chunks.last();
        lemma_chunks_of(a, k);
        assert(a.push(d) =~= chunks);
        lemma_push(a, d, k);
        let f = chunks_of(a, k);
        assert(chunks_of(chunks, k) == (if d.index == k { f.push(d) } else { f }));
        if d.index == k {
            lemma_push(f, d, k);
        }
    }
}

/// Chunks of different calls may arrive interleaved in any order: two
/// sequences of chunks in which every call has the same chunks, in the same
/// order, give the same calls (or the same error).
pub proof fn law_chunk_order(a: Seq<ToolCallChunk>, b: Seq<ToolCallChunk>)
    requires
        forall|k: u32| #[trigger] chunks_of(a, k) == chunks_of(b, k),
    ensures
        assembled_calls(a) == assembled_calls(b),
{
    assert forall|k: u32| #![auto] {
        &&& has_index(a, k) == has_index(b, k)
        &&& last_id(a, k) == last_id(b, k)
        &&& last_name(a, k) == last_name(b, k)
        &&& joined_arguments(a, k) == joined_arguments(b, k)
    } by {
        lemma_chunks_of(a, k);
        lemma_chunks_of(b, k);
        assert(chunks_of(a, k) == chunks_of(b, k));
    }
    lemma_same_calls_assemble(a, b);
}

} // verus!
