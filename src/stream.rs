//! The decoding of a streamed response: each network chunk becomes a payload
//! of `data:` line bodies, each payload a list of repaired JSON objects, and
//! each object the text fragment that it carries.

use vstd::prelude::*;
use vstd::utf8::{
    decode_utf8, encode_utf8, encode_utf8_decode_utf8, encode_utf8_valid_utf8, valid_utf8,
};
use crate::json::{array_at, array_in, json_document, string_at, string_in};
use crate::text::{
    chars_of, contains, contains_exec, copy_range, is_space, join, join_exec, occurs_at, split,
    split_exec, starts_with, starts_with_exec, string_of, trim, trim_exec, trim_start, utf8_text,
    views,
};

verus! {

/// The prefix of a line that carries data.
pub open spec fn data_prefix() -> Seq<char> {
    "data:"@
}

/// The marker that ends a stream.
pub open spec fn done_marker() -> Seq<char> {
    "[DONE]"@
}

/// The characters between two JSON objects that follow each other in a payload.
pub open spec fn object_boundary() -> Seq<char> {
    "}\n{"@
}

pub open spec fn newline() -> Seq<char> {
    "\n"@
}

/// Where a streamed chunk object holds its choices.
pub open spec fn choices_pointer() -> Seq<char> {
    "/choices"@
}

/// Where a streamed chunk object holds its text fragment, its choices being
/// an array.
pub open spec fn delta_pointer() -> Seq<char> {
    "/choices/0/delta/content"@
}

/// The views of a sequence of strings.
pub open spec fn texts(v: Seq<String>) -> Seq<Seq<char>> {
    v.map_values(|s: String| s@)
}

/// The text of a chunk: its UTF-8 decoding, or empty where it is not valid UTF-8.
pub open spec fn chunk_text(b: Seq<u8>) -> Seq<char> {
    if valid_utf8(b) {
        decode_utf8(b)
    } else {
        Seq::empty()
    }
}

/// The bodies of the data lines among `lines`, in order: each without its
/// prefix and trimmed.
pub open spec fn data_bodies(lines: Seq<Seq<char>>) -> Seq<Seq<char>>
    decreases lines.len(),
{
    if lines.len() == 0 {
        Seq::empty()
    } else {
        let rest = data_bodies(lines.drop_last());
        let l = lines.last();
        if starts_with(l, data_prefix()) {
            rest.push(trim(l.subrange(data_prefix().len() as int, l.len() as int)))
        } else {
            rest
        }
    }
}

/// The payload of a text: the bodies of its data lines, joined by newlines.
pub open spec fn payload_of_text(t: Seq<char>) -> Seq<char> {
    join(data_bodies(split(t, newline())), newline())
}

/// The payload of a chunk of bytes.
pub open spec fn payload_of(b: Seq<u8>) -> Seq<char> {
    payload_of_text(chunk_text(b))
}

/// A payload goes on to reassembly unless it holds the end marker or is blank.
pub open spec fn forwarded(p: Seq<char>) -> bool {
    !contains(p, done_marker()) && trim(p).len() > 0
}

pub open spec fn opens(c: Seq<char>) -> bool {
    c.len() > 0 && c[0] == '{'
}

pub open spec fn closes(c: Seq<char>) -> bool {
    c.len() > 0 && c.last() == '}'
}

/// A piece of a payload with the braces it lacks at either edge added.
pub open spec fn repaired(c: Seq<char>) -> Seq<char> {
    if opens(c) && closes(c) {
        c
    } else if opens(c) {
        c.push('}')
    } else if closes(c) {
        seq!['{'] + c
    } else {
        seq!['{'] + c.push('}')
    }
}

/// The objects that a payload is reassembled into: its pieces between object
/// boundaries, each repaired.
pub open spec fn reassembled(p: Seq<char>) -> Seq<Seq<char>> {
    split(p, object_boundary()).map_values(|c: Seq<char>| repaired(c))
}

/// The fragment that an object carries: `choices[0].delta.content` where
/// the choices are an array and a string stands there, else empty (also
/// where the object is no JSON document).
pub open spec fn delta_of(obj: Seq<char>) -> Seq<char> {
    if array_at(obj, choices_pointer()) {
        match string_at(obj, delta_pointer()) {
            Some(t) => t,
            None => Seq::empty(),
        }
    } else {
        Seq::empty()
    }
}

/// `ps` without its empty members, in order.
pub open spec fn non_empty(ps: Seq<Seq<char>>) -> Seq<Seq<char>>
    decreases ps.len(),
{
    if ps.len() == 0 {
        Seq::empty()
    } else if ps.last().len() == 0 {
        non_empty(ps.drop_last())
    } else {
        non_empty(ps.drop_last()).push(ps.last())
    }
}

/// The fragments of a payload.
pub open spec fn payload_fragments(p: Seq<char>) -> Seq<Seq<char>> {
    if forwarded(p) {
        non_empty(reassembled(p).map_values(|o: Seq<char>| delta_of(o)))
    } else {
        Seq::empty()
    }
}

/// The fragments of a chunk of bytes.
pub open spec fn chunk_fragments(b: Seq<u8>) -> Seq<Seq<char>> {
    payload_fragments(payload_of(b))
}

/// The fragments of a stream of chunks: those of each chunk, in order.
pub open spec fn stream_fragments(chunks: Seq<Seq<u8>>) -> Seq<Seq<char>>
    decreases chunks.len(),
{
    if chunks.len() == 0 {
        Seq::empty()
    } else {
        stream_fragments(chunks.drop_last()) + chunk_fragments(chunks.last())
    }
}

/// The payload of a chunk of bytes: the bodies of its `data:` lines, each
/// trimmed, joined by newlines. Bytes that are not valid UTF-8 give an empty
/// payload.
pub fn frame_payload(bytes: &[u8]) -> (r: String)
    ensures
        r@ == payload_of(bytes@),
{
    let text = match utf8_text(bytes) {
        Some(t) => chars_of(t),
        None => Vec::new(),
    };
    assert(text@ == chunk_text(bytes@));
    let nl = chars_of("\n");
    let prefix = chars_of("data:");
    proof {
        reveal_strlit("\n");
        reveal_strlit("data:");
    }
    let lines = split_exec(&text, &nl);
    let mut kept: Vec<Vec<char>> = Vec::new();
    let mut i: usize = 0;
    while i < lines.len()
        invariant
            i <= lines@.len(),
            prefix@ == data_prefix(),
            views(kept@) == data_bodies(views(lines@).subrange(0, i as int)),
        decreases lines@.len() - i,
    {
        let ghost before = kept@;
        assert(views(lines@).subrange(0, i + 1).drop_last() =~= views(lines@).subrange(
            0,
            i as int,
        ));
        let line = &lines[i];
        if starts_with_exec(line, &prefix) {
            let body = copy_range(line, prefix.len(), line.len());
            kept.push(trim_exec(&body));
            assert(views(kept@) =~= views(before).push(kept@.last()@));
        }
        i += 1;
    }
    assert(views(lines@).subrange(0, lines@.len() as int) =~= views(lines@));
    let joined = join_exec(&kept, &nl);
    string_of(&joined)
}

/// Whether a payload goes on to reassembly: it holds no end marker and is not blank.
pub fn is_forwarded(payload: &str) -> (r: bool)
    ensures
        r == forwarded(payload@),
{
    let p = chars_of(payload);
    let marker = chars_of("[DONE]");
    !contains_exec(&p, &marker) && trim_exec(&p).len() > 0
}

/// A piece of a payload with the braces it lacks at either edge added.
pub fn repair(c: &Vec<char>) -> (r: Vec<char>)
    ensures
        r@ == repaired(c@),
{
    let opens = c.len() > 0 && c[0] == '{';
    let closes = c.len() > 0 && c[c.len() - 1] == '}';
    if opens && closes {
        copy_range(c, 0, c.len())
    } else if opens {
        let mut r = copy_range(c, 0, c.len());
        r.push('}');
        r
    } else {
        let mut r: Vec<char> = Vec::new();
        r.push('{');
        let mut i: usize = 0;
        while i < c.len()
            invariant
                i <= c@.len(),
                r@ == seq!['{'] + c@.subrange(0, i as int),
            decreases c@.len() - i,
        {
            r.push(c[i]);
            assert(r@ =~= seq!['{'] + c@.subrange(0, i + 1));
            i += 1;
        }
        assert(c@.subrange(0, c@.len() as int) =~= c@);
        if !closes {
            r.push('}');
            assert(r@ =~= seq!['{'] + c@.push('}'));
        }
        r
    }
}

/// The objects that a payload is reassembled into.
pub fn reassemble(payload: &str) -> (r: Vec<String>)
    ensures
        texts(r@) == reassembled(payload@),
{
    let p = chars_of(payload);
    let boundary = chars_of("}\n{");
    proof {
        reveal_strlit("}\n{");
    }
    let pieces = split_exec(&p, &boundary);
    let mut out: Vec<String> = Vec::new();
    let mut i: usize = 0;
    while i < pieces.len()
        invariant
            i <= pieces@.len(),
            views(pieces@) == split(payload@, object_boundary()),
            texts(out@) == views(pieces@).subrange(0, i as int).map_values(
                |c: Seq<char>| repaired(c),
            ),
        decreases pieces@.len() - i,
    {
        assert(views(pieces@)[i as int] == pieces@[i as int]@);
        let fixed = repair(&pieces[i]);
        let ghost prev = out@;
        out.push(string_of(&fixed));
        assert(texts(out@) =~= texts(prev).push(repaired(views(pieces@)[i as int])));
        assert(texts(out@) =~= views(pieces@).subrange(0, i + 1).map_values(
            |c: Seq<char>| repaired(c),
        ));
        i += 1;
    }
    assert(views(pieces@).subrange(0, pieces@.len() as int) =~= views(pieces@));
    out
}

/// The fragment that an object carries, from whether its choices are an
/// array and what string stands under its delta pointer: that string where
/// the choices are an array, else empty.
pub fn delta_text(choices_array: bool, entry: Option<String>) -> (r: String)
    ensures
        choices_array ==> (entry matches Some(t) ==> r@ == t@),
        choices_array && entry is None ==> r@.len() == 0,
        !choices_array ==> r@.len() == 0,
{
    match entry {
        Some(t) => if choices_array {
            t
        } else {
            String::new()
        },
        None => String::new(),
    }
}

/// The fragment that an object carries: the string at `choices[0].delta.content`,
/// or empty where the object is no JSON document, its choices are not an
/// array, or it holds no string there.
pub fn extract_delta(obj: &str) -> (r: String)
    ensures
        r@ == delta_of(obj@),
{
    let r = delta_text(array_in(obj, "/choices"), string_in(obj, "/choices/0/delta/content"));
    assert(r@ =~= delta_of(obj@));
    r
}

/// The fragments of a payload: none where it holds the end marker or is
/// blank, else the non-empty fragments of its reassembled objects, in order.
pub fn fragments_of_payload(payload: &str) -> (r: Vec<String>)
    ensures
        texts(r@) == payload_fragments(payload@),
{
    if !is_forwarded(payload) {
        let none: Vec<String> = Vec::new();
        assert(texts(none@) =~= Seq::<Seq<char>>::empty());
        return none;
    }
    let objs = reassemble(payload);
    let ghost deltas = reassembled(payload@).map_values(|o: Seq<char>| delta_of(o));
    let mut out: Vec<String> = Vec::new();
    let mut i: usize = 0;
    assert(texts(out@) =~= non_empty(deltas.subrange(0, 0)));
    while i < objs.len()
        invariant
            i <= objs@.len(),
            texts(objs@) == reassembled(payload@),
            deltas == reassembled(payload@).map_values(|o: Seq<char>| delta_of(o)),
            texts(out@) == non_empty(deltas.subrange(0, i as int)),
        decreases objs@.len() - i,
    {
        assert(deltas.subrange(0, i + 1).drop_last() =~= deltas.subrange(0, i as int));
        let ghost before = out@;
        let d = extract_delta(objs[i].as_str());
        assert(texts(objs@)[i as int] == objs@[i as int]@);
        if !d.as_str().is_empty() {
            out.push(d);
            assert(texts(out@) =~= texts(before).push(out@.last()@));
        }
        i += 1;
    }
    assert(deltas.subrange(0, objs@.len() as int) =~= deltas);
    out
}

/// The fragments of one chunk of bytes.
pub fn fragments_of_chunk(bytes: &[u8]) -> (r: Vec<String>)
    ensures
        texts(r@) == chunk_fragments(bytes@),
{
    let payload = frame_payload(bytes);
    fragments_of_payload(payload.as_str())
}

/// The fragments of a whole stream of chunks: those of each chunk, in order.
pub fn fragments_of_stream(chunks: &Vec<Vec<u8>>) -> (r: Vec<String>)
    ensures
        texts(r@) == stream_fragments(chunks@.map_values(|c: Vec<u8>| c@)),
{
    let ghost all = chunks@.map_values(|c: Vec<u8>| c@);
    let mut out: Vec<String> = Vec::new();
    let mut i: usize = 0;
    assert(texts(out@) =~= stream_fragments(all.subrange(0, 0)));
    while i < chunks.len()
        invariant
            i <= chunks@.len(),
            all == chunks@.map_values(|c: Vec<u8>| c@),
            texts(out@) == stream_fragments(all.subrange(0, i as int)),
        decreases chunks@.len() - i,
    {
        assert(all.subrange(0, i + 1).drop_last() =~= all.subrange(0, i as int));
        let ghost before = out@;
        let frags = fragments_of_chunk(chunks[i].as_slice());
        let mut j: usize = 0;
        while j < frags.len()
            invariant
                j <= frags@.len(),
                texts(out@) == texts(before) + texts(frags@).subrange(0, j as int),
            decreases frags@.len() - j,
        {
            assert(texts(frags@)[j as int] == frags@[j as int]@);
            let f = frags[j].clone();
            let ghost prev = out@;
            out.push(f);
            assert(texts(out@) =~= texts(prev).push(frags@[j as int]@));
            assert(texts(out@) =~= texts(before) + texts(frags@).subrange(0, j + 1));
            j += 1;
        }
        assert(texts(frags@).subrange(0, frags@.len() as int) =~= texts(frags@));
        i += 1;
    }
    assert(all.subrange(0, chunks@.len() as int) =~= all);
    out
}

/// A data line as a provider sends it: the prefix, one space, then the object.
pub open spec fn data_line(obj: Seq<char>) -> Seq<char> {
    data_prefix() + seq![' '] + obj
}

/// An object text as a provider puts one on a line: braces at both ends, no
/// line break, and no end marker.
pub open spec fn well_formed_object(obj: Seq<char>) -> bool {
    &&& opens(obj)
    &&& closes(obj)
    &&& forall|i: int| 0 <= i < obj.len() ==> obj[i] != '\n'
    &&& !contains(obj, done_marker())
}

/// A text without an occurrence of `p` is one piece.
pub proof fn lemma_split_absent(s: Seq<char>, p: Seq<char>)
    requires
        p.len() > 0,
        !contains(s, p),
    ensures
        split(s, p) == seq![s],
    decreases s.len(),
{
    if s.len() >= p.len() {
        assert(!occurs_at(s, p, 0));
        let t = s.drop_first();
        assert forall|i: int| !occurs_at(t, p, i) by {
            if occurs_at(t, p, i) {
                assert(s.subrange(i + 1, i + 1 + p.len()) =~= t.subrange(i, i + p.len()));
                assert(occurs_at(s, p, i + 1));
            }
        }
        lemma_split_absent(t, p);
        assert(seq![s[0]] + t =~= s);
        assert(seq![t].update(0, seq![s[0]] + t) =~= seq![s]);
    }
}

/// A text without the character `c` holds no pattern in which `c` stands.
proof fn lemma_absent_char(s: Seq<char>, p: Seq<char>, k: int)
    requires
        0 <= k < p.len(),
        forall|i: int| 0 <= i < s.len() ==> s[i] != p[k],
    ensures
        !contains(s, p),
{
    assert forall|i: int| !occurs_at(s, p, i) by {
        if occurs_at(s, p, i) {
            assert(s.subrange(i, i + p.len())[k] == s[i + k]);
        }
    }
}

/// Reassembly leaves a single object unchanged: a text with braces at both
/// ends and no object boundary inside is its own reassembly. A JSON object
/// text never holds the boundary, as JSON puts a comma between two values.
pub proof fn lemma_reassemble_single_object(obj: Seq<char>)
    requires
        opens(obj),
        closes(obj),
        !contains(obj, object_boundary()),
    ensures
        reassembled(obj) == seq![obj],
{
    reveal_strlit("}\n{");
    lemma_split_absent(obj, object_boundary());
    assert(reassembled(obj) =~= seq![obj]);
}

/// A payload that holds the end marker, or is blank, gives no fragment.
pub proof fn lemma_unforwarded_payload(p: Seq<char>)
    requires
        contains(p, done_marker()) || trim(p).len() == 0,
    ensures
        payload_fragments(p) == Seq::<Seq<char>>::empty(),
{
}

proof fn lemma_non_empty_of_empties(ps: Seq<Seq<char>>)
    requires
        forall|i: int| 0 <= i < ps.len() ==> ps[i].len() == 0,
    ensures
        non_empty(ps) == Seq::<Seq<char>>::empty(),
    decreases ps.len(),
{
    if ps.len() > 0 {
        lemma_non_empty_of_empties(ps.drop_last());
    }
}

/// A payload whose every reassembled object fails to parse gives no fragment.
pub proof fn lemma_malformed_payload(p: Seq<char>)
    requires
        forall|i: int|
            0 <= i < reassembled(p).len() ==> json_document(#[trigger] reassembled(p)[i]) is None,
    ensures
        payload_fragments(p) == Seq::<Seq<char>>::empty(),
{
    let ds = reassembled(p).map_values(|o: Seq<char>| delta_of(o));
    assert forall|i: int| 0 <= i < ds.len() implies ds[i].len() == 0 by {
        assert(json_document(reassembled(p)[i]) is None);
    }
    lemma_non_empty_of_empties(ds);
}

/// The fragments of two streams one after the other are those of the first,
/// then those of the second.
pub proof fn lemma_stream_concat(a: Seq<Seq<u8>>, b: Seq<Seq<u8>>)
    ensures
        stream_fragments(a + b) == stream_fragments(a) + stream_fragments(b),
    decreases b.len(),
{
    if b.len() == 0 {
        assert(a + b =~= a);
        assert(stream_fragments(a) + Seq::<Seq<char>>::empty() =~= stream_fragments(a));
    } else {
        assert((a + b).drop_last() =~= a + b.drop_last());
        lemma_stream_concat(a, b.drop_last());
        assert(stream_fragments(a + b) =~= stream_fragments(a) + stream_fragments(b));
    }
}

/// A chunk whose objects all fail to parse costs nothing: the chunks after it
/// still give their fragments, as if it had not come.
pub proof fn lemma_malformed_chunk_skipped(
    before: Seq<Seq<u8>>,
    bad: Seq<u8>,
    after: Seq<Seq<u8>>,
)
    requires
        forall|i: int|
            0 <= i < reassembled(payload_of(bad)).len() ==> json_document(
                #[trigger] reassembled(payload_of(bad))[i],
            ) is None,
    ensures
        stream_fragments(before.push(bad) + after) == stream_fragments(before) + stream_fragments(
            after,
        ),
{
    lemma_malformed_payload(payload_of(bad));
    lemma_stream_concat(before.push(bad), after);
    assert(before.push(bad).drop_last() =~= before);
    assert(stream_fragments(before.push(bad)) =~= stream_fragments(before));
}

proof fn lemma_trim_object(obj: Seq<char>)
    requires
        opens(obj),
        closes(obj),
    ensures
        trim(seq![' '] + obj) == obj,
        trim(obj) == obj,
{
    let spaced = seq![' '] + obj;
    assert(spaced.drop_first() =~= obj);
    assert((' ' as u32) == 32);
    assert(is_space(spaced[0]));
    assert(trim_start(spaced) == trim_start(obj));
    assert(('{' as u32) == 123);
    assert(('}' as u32) == 125);
    assert(!is_space(obj[0]));
    assert(!is_space(obj.last()));
}

/// Text made of line breaks only.
pub open spec fn line_breaks(t: Seq<char>) -> bool {
    forall|i: int| 0 <= i < t.len() ==> t[i] == '\n'
}

/// `n` empty texts.
pub open spec fn blanks(n: nat) -> Seq<Seq<char>> {
    Seq::new(n, |i: int| Seq::<char>::empty())
}

/// Line breaks alone split into empty lines, one more than there are breaks.
proof fn lemma_split_breaks(t: Seq<char>)
    requires
        line_breaks(t),
    ensures
        split(t, newline()) == blanks(t.len() + 1),
    decreases t.len(),
{
    reveal_strlit("\n");
    if t.len() == 0 {
        assert(t =~= Seq::<char>::empty());
        assert(blanks(1)[0] == Seq::<char>::empty());
        assert(seq![t] =~= blanks(1));
    } else {
        assert(t.subrange(0, 1) =~= newline());
        let rest = t.subrange(1, t.len() as int);
        lemma_split_breaks(rest);
        assert(seq![Seq::<char>::empty()] + blanks(rest.len() + 1) =~= blanks(t.len() + 1));
    }
}

/// A line without a break, then line breaks, splits into that line and
/// one empty line per break.
proof fn lemma_split_line(x: Seq<char>, t: Seq<char>)
    requires
        forall|i: int| 0 <= i < x.len() ==> x[i] != '\n',
        line_breaks(t),
    ensures
        split(x + t, newline()) == seq![x] + blanks(t.len()),
    decreases x.len(),
{
    reveal_strlit("\n");
    let s = x + t;
    if x.len() == 0 {
        assert(s =~= t);
        lemma_split_breaks(t);
        assert(x =~= Seq::<char>::empty());
        assert(blanks(t.len() + 1) =~= seq![x] + blanks(t.len()));
    } else {
        let y = x.drop_first();
        lemma_split_line(y, t);
        assert(s.drop_first() =~= y + t);
        assert(s.subrange(0, 1) != newline()) by {
            assert(s.subrange(0, 1)[0] == x[0]);
        }
        let tail = split(y + t, newline());
        assert(seq![s[0]] + y =~= x);
        assert(tail.update(0, seq![s[0]] + tail[0]) =~= seq![x] + blanks(t.len()));
    }
}

/// Empty lines at the end add no data line.
proof fn lemma_data_bodies_blanks(ps: Seq<Seq<char>>, n: nat)
    ensures
        data_bodies(ps + blanks(n)) == data_bodies(ps),
    decreases n,
{
    reveal_strlit("data:");
    if n == 0 {
        assert(ps + blanks(0) =~= ps);
    } else {
        let longer = ps + blanks(n);
        assert(longer.drop_last() =~= ps + blanks((n - 1) as nat));
        assert(!starts_with(longer.last(), data_prefix()));
        lemma_data_bodies_blanks(ps, (n - 1) as nat);
    }
}

/// The fragments of a chunk that holds one data line, ended by any number
/// of line breaks.
proof fn lemma_data_line_chunk(obj: Seq<char>, t: Seq<char>)
    requires
        well_formed_object(obj),
        line_breaks(t),
    ensures
        chunk_fragments(encode_utf8(data_line(obj) + t)) == non_empty(seq![delta_of(obj)]),
{
    reveal_strlit("data:");
    reveal_strlit("\n");
    reveal_strlit("}\n{");
    let line = data_line(obj);
    let text = line + t;
    encode_utf8_valid_utf8(text);
    encode_utf8_decode_utf8(text);
    assert(chunk_text(encode_utf8(text)) == text);
    assert forall|i: int| 0 <= i < line.len() implies line[i] != '\n' by {
        if i >= 6 {
            assert(line[i] == obj[i - 6]);
        }
    }
    lemma_split_line(line, t);
    lemma_data_bodies_blanks(seq![line], t.len());
    assert(line.subrange(0, 5) =~= data_prefix());
    assert(line.subrange(5, line.len() as int) =~= seq![' '] + obj);
    lemma_trim_object(obj);
    assert(seq![line].drop_last() =~= Seq::<Seq<char>>::empty());
    assert(data_bodies(Seq::<Seq<char>>::empty()) == Seq::<Seq<char>>::empty());
    assert(starts_with(line, data_prefix()));
    assert(trim(line.subrange(data_prefix().len() as int, line.len() as int)) == obj);
    assert(data_bodies(seq![line]) =~= seq![obj]);
    assert(payload_of(encode_utf8(text)) == obj);
    lemma_absent_char(obj, object_boundary(), 1);
    lemma_reassemble_single_object(obj);
    assert(reassembled(obj).map_values(|o: Seq<char>| delta_of(o)) =~= seq![delta_of(obj)]);
}

/// The chunks of a stream in which the `i`th chunk holds one data line with
/// the `i`th object, ended by the `i`th run of line breaks.
pub open spec fn data_chunks(objs: Seq<Seq<char>>, ends: Seq<Seq<char>>) -> Seq<Seq<u8>> {
    Seq::new(objs.len(), |i: int| encode_utf8(data_line(objs[i]) + ends[i]))
}

/// A stream whose chunks each hold one data line with a well-formed object
/// (ended by any number of line breaks, as providers send them) gives, in
/// order, the non-empty fragments that those objects carry.
pub proof fn lemma_well_formed_stream(objs: Seq<Seq<char>>, ends: Seq<Seq<char>>)
    requires
        ends.len() == objs.len(),
        forall|i: int| 0 <= i < objs.len() ==> well_formed_object(#[trigger] objs[i]),
        forall|i: int| 0 <= i < ends.len() ==> line_breaks(#[trigger] ends[i]),
    ensures
        stream_fragments(data_chunks(objs, ends)) == non_empty(
            objs.map_values(|o: Seq<char>| delta_of(o)),
        ),
    decreases objs.len(),
{
    let chunks = data_chunks(objs, ends);
    let ds = objs.map_values(|o: Seq<char>| delta_of(o));
    if objs.len() > 0 {
        let init = objs.drop_last();
        let init_ends = ends.drop_last();
        assert(chunks.drop_last() =~= data_chunks(init, init_ends));
        assert(ds.drop_last() =~= init.map_values(|o: Seq<char>| delta_of(o)));
        lemma_well_formed_stream(init, init_ends);
        lemma_data_line_chunk(objs.last(), ends.last());
        assert(chunks.last() == encode_utf8(data_line(objs.last()) + ends.last()));
        let single = seq![delta_of(objs.last())];
        assert(single.drop_last() =~= Seq::<Seq<char>>::empty());
        assert(non_empty(Seq::<Seq<char>>::empty()) == Seq::<Seq<char>>::empty());
        if delta_of(objs.last()).len() == 0 {
            assert(non_empty(single) =~= Seq::<Seq<char>>::empty());
            assert(stream_fragments(chunks) =~= non_empty(ds));
        } else {
            assert(non_empty(single) =~= single);
            assert(stream_fragments(chunks) =~= non_empty(ds));
        }
    } else {
        assert(chunks =~= Seq::<Seq<u8>>::empty());
    }
}

/// Two texts without an object boundary, joined by one, split back into the two.
pub proof fn lemma_split_joined(x: Seq<char>, y: Seq<char>)
    requires
        !contains(x, object_boundary()),
        !contains(y, object_boundary()),
    ensures
        split(x + object_boundary() + y, object_boundary()) == seq![x, y],
    decreases x.len(),
{
    reveal_strlit("}\n{");
    let b = object_boundary();
    let s = x + b + y;
    assert(b.len() == 3 && b[0] == '}' && b[1] == '\n' && b[2] == '{');
    if x.len() == 0 {
        assert(x =~= Seq::<char>::empty());
        assert(s.subrange(0, 3) =~= b);
        assert(s.subrange(3, s.len() as int) =~= y);
        lemma_split_absent(y, b);
        assert(seq![Seq::<char>::empty()] + seq![y] =~= seq![x, y]);
    } else {
        assert(!occurs_at(s, b, 0)) by {
            if occurs_at(s, b, 0) {
                if x.len() >= 3 {
                    assert(x.subrange(0, 3) =~= s.subrange(0, 3));
                    assert(occurs_at(x, b, 0));
                } else if x.len() == 2 {
                    assert(s[2] == b[0]);
                    assert(s.subrange(0, 3)[2] == s[2]);
                } else {
                    assert(s[1] == b[0]);
                    assert(s.subrange(0, 3)[1] == s[1]);
                }
            }
        }
        let t = x.drop_first();
        assert forall|i: int| !occurs_at(t, b, i) by {
            if occurs_at(t, b, i) {
                assert(x.subrange(i + 1, i + 4) =~= t.subrange(i, i + 3));
                assert(occurs_at(x, b, i + 1));
            }
        }
        lemma_split_joined(t, y);
        assert(s.drop_first() =~= t + b + y);
        assert(s.subrange(0, 3) != b);
        assert(seq![s[0]] + t =~= x);
        assert(seq![t, y].update(0, seq![s[0]] + t) =~= seq![x, y]);
    }
}

/// An object cut just before its closing brace, the two parts joined by an
/// object boundary, is recovered whole as the first reassembled object.
pub proof fn lemma_reassemble_cut_object(obj: Seq<char>)
    requires
        opens(obj),
        closes(obj),
        obj.len() >= 2,
        obj[obj.len() - 2] != '}',
        !contains(obj, object_boundary()),
    ensures
        reassembled(obj.drop_last() + object_boundary() + seq!['}'])[0] == obj,
{
    reveal_strlit("}\n{");
    let x = obj.drop_last();
    assert forall|i: int| !occurs_at(x, object_boundary(), i) by {
        if occurs_at(x, object_boundary(), i) {
            assert(obj.subrange(i, i + 3) =~= x.subrange(i, i + 3));
            assert(occurs_at(obj, object_boundary(), i));
        }
    }
    assert forall|i: int| !occurs_at(seq!['}'], object_boundary(), i) by {}
    lemma_split_joined(x, seq!['}']);
    assert(x.push('}') =~= obj);
}

} // verus!
