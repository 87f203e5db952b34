//! The poll cursors of one backend: for each client the highest sequence
//! number that was fetched for it.

use crate::ident::ClientId;
use vstd::prelude::*;

verus! {

/// How far one client's messages were fetched.
#[derive(Clone, Debug, PartialEq, Eq)]
pub struct Cursor {
    pub client: ClientId,
    /// The highest sequence number fetched; zero where none was.
    pub fetched: u64,
}

/// Whether one of `cursors` belongs to `client`.
pub open spec fn has_cursor(cursors: Seq<Cursor>, client: Seq<u8>) -> bool {
    exists|i: int| 0 <= i < cursors.len() && (#[trigger] cursors[i]).client@ == client
}

/// The place of `client`'s cursor among `cursors`.
pub open spec fn cursor_place(cursors: Seq<Cursor>, client: Seq<u8>) -> int {
    choose|i: int| 0 <= i < cursors.len() && (#[trigger] cursors[i]).client@ == client
}

/// Whether no client has two of `cursors`.
pub open spec fn distinct_cursors(cursors: Seq<Cursor>) -> bool {
    forall|i: int, j: int|
        0 <= i < j < cursors.len() ==> (#[trigger] cursors[i]).client@ != (
        #[trigger] cursors[j]).client@
}

/// What `cursors` say: for each client that has one, how far its messages
/// were fetched.
pub open spec fn cursor_map(cursors: Seq<Cursor>) -> Map<Seq<u8>, nat> {
    Map::new(
        |c: Seq<u8>| has_cursor(cursors, c),
        |c: Seq<u8>| cursors[cursor_place(cursors, c)].fetched as nat,
    )
}

/// With distinct clients, the cursor found at `at` is the one that the
/// map holds for its client.
pub proof fn lemma_cursor_at(cursors: Seq<Cursor>, at: int)
    requires
        distinct_cursors(cursors),
        0 <= at < cursors.len(),
    ensures
        has_cursor(cursors, cursors[at].client@),
        cursor_place(cursors, cursors[at].client@) == at,
        cursor_map(cursors).contains_key(cursors[at].client@),
        cursor_map(cursors)[cursors[at].client@] == cursors[at].fetched,
{
    let c = cursors[at].client@;
    let p = cursor_place(cursors, c);
    assert(0 <= p < cursors.len() && cursors[p].client@ == c);
    if p < at {
        assert(cursors[p].client@ != cursors[at].client@);
    } else if at < p {
        assert(cursors[at].client@ != cursors[p].client@);
    }
}

/// Appending the cursor of a new client inserts it into the map.
pub proof fn lemma_cursor_push(cursors: Seq<Cursor>, cursor: Cursor)
    requires
        distinct_cursors(cursors),
        !has_cursor(cursors, cursor.client@),
    ensures
        distinct_cursors(cursors.push(cursor)),
        cursor_map(cursors.push(cursor)) == cursor_map(cursors).insert(
            cursor.client@,
            cursor.fetched as nat,
        ),
{
    let after = cursors.push(cursor);
    let last = cursors.len() as int;
    assert forall|i: int, j: int| 0 <= i < j < after.len() implies (#[trigger] after[i]).client@ != (
    #[trigger] after[j]).client@ by {
        if j == last {
            assert(cursors[i].client@ != cursor.client@);
        } else {
            assert(cursors[i].client@ != cursors[j].client@);
        }
    }
    let target = cursor_map(cursors).insert(cursor.client@, cursor.fetched as nat);
    assert forall|c: Seq<u8>| #[trigger] cursor_map(after).contains_key(c) <==> target.contains_key(
        c,
    ) by {
        if has_cursor(after, c) {
            let i = cursor_place(after, c);
            if i < last {
                assert(cursors[i].client@ == c);
            }
        }
        if has_cursor(cursors, c) {
            let i = cursor_place(cursors, c);
            assert(after[i].client@ == c);
        }
        if c == cursor.client@ {
            assert(after[last].client@ == c);
        }
    }
    assert forall|c: Seq<u8>| #[trigger] cursor_map(after).contains_key(c) implies cursor_map(
        after,
    )[c] == target[c] by {
        let i = cursor_place(after, c);
        lemma_cursor_at(after, i);
        if i < last {
            assert(cursors[i] == after[i]);
            lemma_cursor_at(cursors, i);
        }
    }
    assert(cursor_map(after) =~= target);
}

/// Taking a cursor out removes its client from the map.
pub proof fn lemma_cursor_remove(cursors: Seq<Cursor>, at: int)
    requires
        distinct_cursors(cursors),
        0 <= at < cursors.len(),
    ensures
        distinct_cursors(cursors.remove(at)),
        cursor_map(cursors.remove(at)) == cursor_map(cursors).remove(cursors[at].client@),
{
    let after = cursors.remove(at);
    let gone = cursors[at].client@;
    assert forall|i: int| 0 <= i < after.len() implies (#[trigger] after[i]) == cursors[if i < at {
        i
    } else {
        i + 1
    }] by {}
    assert forall|i: int, j: int| 0 <= i < j < after.len() implies (#[trigger] after[i]).client@ != (
    #[trigger] after[j]).client@ by {
        let oi = if i < at { i } else { i + 1 };
        let oj = if j < at { j } else { j + 1 };
        assert(cursors[oi].client@ != cursors[oj].client@);
    }
    let target = cursor_map(cursors).remove(gone);
    assert forall|c: Seq<u8>| #[trigger] cursor_map(after).contains_key(c) <==> target.contains_key(
        c,
    ) by {
        if has_cursor(after, c) {
            let i = cursor_place(after, c);
            let oi = if i < at { i } else { i + 1 };
            assert(cursors[oi].client@ == c);
            if oi < at {
                assert(cursors[oi].client@ != cursors[at].client@);
            } else {
                assert(cursors[at].client@ != cursors[oi].client@);
            }
        }
        if has_cursor(cursors, c) && c != gone {
            let i = cursor_place(cursors, c);
            let ni = if i < at { i } else { i - 1 };
            assert(after[ni].client@ == c);
        }
    }
    assert forall|c: Seq<u8>| #[trigger] cursor_map(after).contains_key(c) implies cursor_map(
        after,
    )[c] == target[c] by {
        let i = cursor_place(after, c);
        lemma_cursor_at(after, i);
        let oi = if i < at { i } else { i + 1 };
        assert(after[i] == cursors[oi]);
        lemma_cursor_at(cursors, oi);
    }
    assert(cursor_map(after) =~= target);
}

/// Moving one cursor on replaces it in the map.
pub proof fn lemma_cursor_update(cursors: Seq<Cursor>, at: int, cursor: Cursor)
    requires
        distinct_cursors(cursors),
        0 <= at < cursors.len(),
        cursor.client@ == cursors[at].client@,
    ensures
        distinct_cursors(cursors.update(at, cursor)),
        cursor_map(cursors.update(at, cursor)) == cursor_map(cursors).insert(
            cursor.client@,
            cursor.fetched as nat,
        ),
{
    let after = cursors.update(at, cursor);
    assert forall|i: int, j: int| 0 <= i < j < after.len() implies (#[trigger] after[i]).client@ != (
    #[trigger] after[j]).client@ by {
        assert(cursors[i].client@ != cursors[j].client@);
    }
    let target = cursor_map(cursors).insert(cursor.client@, cursor.fetched as nat);
    assert forall|c: Seq<u8>| #[trigger] cursor_map(after).contains_key(c) <==> target.contains_key(
        c,
    ) by {
        if has_cursor(after, c) {
            let i = cursor_place(after, c);
            assert(cursors[i].client@ == c);
        }
        if has_cursor(cursors, c) {
            let i = cursor_place(cursors, c);
            assert(after[i].client@ == c);
        }
        if c == cursor.client@ {
            assert(after[at].client@ == c);
        }
    }
    assert forall|c: Seq<u8>| #[trigger] cursor_map(after).contains_key(c) implies cursor_map(
        after,
    )[c] == target[c] by {
        let i = cursor_place(after, c);
        lemma_cursor_at(after, i);
        if i != at {
            assert(cursors[i] == after[i]);
            lemma_cursor_at(cursors, i);
        }
    }
    assert(cursor_map(after) =~= target);
}

/// Where `client`'s cursor stands among `cursors`, if it has one.
pub fn find_cursor(cursors: &Vec<Cursor>, client: &ClientId) -> (found: Option<usize>)
    ensures
        match found {
            Some(at) => at < cursors.len() && cursors@[at as int].client@ == client@,
            None => !has_cursor(cursors@, client@),
        },
{
    let mut i: usize = 0;
    while i < cursors.len()
        invariant
            i <= cursors.len(),
            forall|k: int| 0 <= k < i ==> (#[trigger] cursors@[k]).client@ != client@,
        decreases cursors.len() - i,
    {
        if cursors[i].client.same(client) {
            return Some(i);
        }
        i += 1;
    }
    None
}

} // verus!
