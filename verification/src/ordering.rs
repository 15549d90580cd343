use crate::geometry::midpoint;
use crate::geometry::Rect;
use vstd::prelude::*;
use vstd::seq_lib::to_multiset_build;

verus! {

/// The column of the center of `room`: the key by which rooms are ordered
/// before corridors are dug.
pub open spec fn center_x(room: Rect) -> int {
    midpoint(room.x1 as int, room.x2 as int)
}

/// Whether the rooms stand in ascending order of the column of their center.
pub open spec fn ordered_by_center_x(rooms: Seq<Rect>) -> bool {
    forall|i: int, j: int| 0 <= i < j < rooms.len() ==> center_x(rooms[i]) <= center_x(rooms[j])
}

/// `sorted` with `room` put in behind the last room whose center lies in
/// the same column or further left.
pub open spec fn insert_by_center_x(sorted: Seq<Rect>, room: Rect) -> Seq<Rect>
    decreases sorted.len(),
{
    if sorted.len() == 0 {
        seq![room]
    } else if center_x(sorted.last()) <= center_x(room) {
        sorted.push(room)
    } else {
        insert_by_center_x(sorted.drop_last(), room).push(sorted.last())
    }
}

/// The rooms in ascending order of the column of their center. Rooms whose
/// centers share a column keep the order they have in `rooms`.
pub open spec fn sorted_by_center_x(rooms: Seq<Rect>) -> Seq<Rect>
    decreases rooms.len(),
{
    if rooms.len() == 0 {
        Seq::empty()
    } else {
        insert_by_center_x(sorted_by_center_x(rooms.drop_last()), rooms.last())
    }
}

/// Putting a room in is the same as inserting it at the position in front
/// of which every center lies in the same column or further left, and from
/// which on every center lies further right.
pub proof fn lemma_insert_position(sorted: Seq<Rect>, room: Rect, at: int)
    requires
        0 <= at <= sorted.len(),
        forall|k: int| at <= k < sorted.len() ==> center_x(sorted[k]) > center_x(room),
        at > 0 ==> center_x(sorted[at - 1]) <= center_x(room),
    ensures
        insert_by_center_x(sorted, room) == sorted.insert(at, room),
    decreases sorted.len(),
{
    if sorted.len() == 0 {
        assert(seq![room] =~= sorted.insert(at, room));
    } else if at == sorted.len() {
        assert(sorted.push(room) =~= sorted.insert(at, room));
    } else {
        let front = sorted.drop_last();
        lemma_insert_position(front, room, at);
        assert(front.insert(at, room).push(sorted.last()) =~= sorted.insert(at, room));
    }
}

/// Putting a room into an ordered sequence gives an ordered sequence with
/// one room more: the rooms of before, and the new one.
pub proof fn lemma_insert_by_center_x(sorted: Seq<Rect>, room: Rect)
    ensures
        insert_by_center_x(sorted, room).len() == sorted.len() + 1,
        insert_by_center_x(sorted, room).to_multiset() == sorted.to_multiset().insert(room),
        ordered_by_center_x(sorted) ==> ordered_by_center_x(insert_by_center_x(sorted, room)),
        forall|i: int|
            0 <= i < sorted.len() + 1 ==> #[trigger] insert_by_center_x(sorted, room)[i] == room
                || sorted.contains(insert_by_center_x(sorted, room)[i]),
    decreases sorted.len(),
{
    let out = insert_by_center_x(sorted, room);
    if sorted.len() == 0 {
        to_multiset_build(sorted, room);
        assert(seq![room] =~= sorted.push(room));
    } else if center_x(sorted.last()) <= center_x(room) {
        to_multiset_build(sorted, room);
        assert forall|i: int| 0 <= i < sorted.len() + 1 implies #[trigger] out[i] == room
            || sorted.contains(out[i]) by {
            if i < sorted.len() {
                assert(out[i] == sorted[i]);
            }
        }
    } else {
        let front = sorted.drop_last();
        let inner = insert_by_center_x(front, room);
        lemma_insert_by_center_x(front, room);
        to_multiset_build(inner, sorted.last());
        to_multiset_build(front, sorted.last());
        assert(front.push(sorted.last()) =~= sorted);
        assert(front.to_multiset().insert(room).insert(sorted.last()) =~= front.to_multiset().insert(
            sorted.last(),
        ).insert(room));
        assert forall|i: int| 0 <= i < sorted.len() + 1 implies #[trigger] out[i] == room
            || sorted.contains(out[i]) by {
            if i < inner.len() {
                assert(out[i] == inner[i]);
                if inner[i] != room {
                    assert(front.contains(inner[i]));
                    let k = choose|k: int| 0 <= k < front.len() && front[k] == inner[i];
                    assert(sorted[k] == inner[i]);
                }
            } else {
                assert(out[i] == sorted[sorted.len() - 1]);
            }
        }
        if ordered_by_center_x(sorted) {
            assert(ordered_by_center_x(front)) by {
                assert forall|i: int, j: int| 0 <= i < j < front.len() implies center_x(front[i])
                    <= center_x(front[j]) by {
                    assert(front[i] == sorted[i] && front[j] == sorted[j]);
                }
            }
            assert forall|i: int, j: int| 0 <= i < j < out.len() implies center_x(out[i])
                <= center_x(out[j]) by {
                if j < inner.len() {
                    assert(out[i] == inner[i] && out[j] == inner[j]);
                } else {
                    assert(out[j] == sorted.last());
                    assert(out[i] == inner[i]);
                    if inner[i] != room {
                        assert(front.contains(inner[i]));
                        let k = choose|k: int| 0 <= k < front.len() && front[k] == inner[i];
                        assert(sorted[k] == inner[i]);
                        assert(center_x(sorted[k]) <= center_x(sorted[sorted.len() - 1]));
                    }
                }
            }
        }
    }
}

/// Sorting rearranges the rooms and leaves them in ascending order of the
/// column of their center: nothing is lost, added or repeated.
pub proof fn lemma_sorted_by_center_x(rooms: Seq<Rect>)
    ensures
        sorted_by_center_x(rooms).len() == rooms.len(),
        sorted_by_center_x(rooms).to_multiset() == rooms.to_multiset(),
        ordered_by_center_x(sorted_by_center_x(rooms)),
        forall|i: int|
            0 <= i < rooms.len() ==> rooms.contains(#[trigger] sorted_by_center_x(rooms)[i]),
        forall|i: int|
            0 <= i < rooms.len() ==> sorted_by_center_x(rooms).contains(#[trigger] rooms[i]),
    decreases rooms.len(),
{
    let out = sorted_by_center_x(rooms);
    if rooms.len() == 0 {
        assert(rooms =~= Seq::empty());
    } else {
        let front = rooms.drop_last();
        let inner = sorted_by_center_x(front);
        lemma_sorted_by_center_x(front);
        lemma_insert_by_center_x(inner, rooms.last());
        to_multiset_build(front, rooms.last());
        assert(front.push(rooms.last()) =~= rooms);
        assert forall|i: int| 0 <= i < rooms.len() implies rooms.contains(#[trigger] out[i]) by {
            if out[i] == rooms.last() {
                assert(rooms[rooms.len() - 1] == out[i]);
            } else {
                assert(inner.contains(out[i]));
                let k = choose|k: int| 0 <= k < inner.len() && inner[k] == out[i];
                assert(front.contains(inner[k]));
                let m = choose|m: int| 0 <= m < front.len() && front[m] == inner[k];
                assert(rooms[m] == out[i]);
            }
        }
        assert forall|i: int| 0 <= i < rooms.len() implies out.contains(#[trigger] rooms[i]) by {
            out.to_multiset_ensures();
            rooms.to_multiset_ensures();
            assert(rooms.contains(rooms[i]));
            assert(rooms.to_multiset().count(rooms[i]) > 0);
            assert(out.to_multiset().count(rooms[i]) > 0);
        }
    }
}

/// The rooms of `rooms` whose center lies in column `column`, in the order
/// in which they stand in `rooms`.
pub open spec fn in_column(rooms: Seq<Rect>, column: int) -> Seq<Rect>
    decreases rooms.len(),
{
    if rooms.len() == 0 {
        Seq::empty()
    } else if center_x(rooms.last()) == column {
        in_column(rooms.drop_last(), column).push(rooms.last())
    } else {
        in_column(rooms.drop_last(), column)
    }
}

/// Putting a room in appends it to the rooms of its own column and leaves
/// the rooms of every other column as they were.
pub proof fn lemma_insert_keeps_columns(sorted: Seq<Rect>, room: Rect, column: int)
    ensures
        in_column(insert_by_center_x(sorted, room), column) == if center_x(room) == column {
            in_column(sorted, column).push(room)
        } else {
            in_column(sorted, column)
        },
    decreases sorted.len(),
{
    if sorted.len() == 0 {
        assert(seq![room].drop_last() =~= sorted);
    } else if center_x(sorted.last()) <= center_x(room) {
        assert(sorted.push(room).drop_last() =~= sorted);
    } else {
        let front = sorted.drop_last();
        let inner = insert_by_center_x(front, room);
        lemma_insert_keeps_columns(front, room, column);
        assert(inner.push(sorted.last()).drop_last() =~= inner);
    }
}

/// Sorting is stable: the rooms whose centers share a column stand in the
/// same order after sorting as before.
pub proof fn lemma_sort_is_stable(rooms: Seq<Rect>, column: int)
    ensures
        in_column(sorted_by_center_x(rooms), column) == in_column(rooms, column),
    decreases rooms.len(),
{
    if rooms.len() > 0 {
        lemma_sort_is_stable(rooms.drop_last(), column);
        lemma_insert_keeps_columns(sorted_by_center_x(rooms.drop_last()), rooms.last(), column);
    }
}

/// The rooms in ascending order of the column of their center; rooms whose
/// centers share a column stay in the order in which they stand in `rooms`.
pub fn sort_by_center_x(rooms: &Vec<Rect>) -> (sorted: Vec<Rect>)
    ensures
        sorted@ == sorted_by_center_x(rooms@),
        sorted@.len() == rooms@.len(),
        sorted@.to_multiset() == rooms@.to_multiset(),
        ordered_by_center_x(sorted@),
{
    let mut sorted: Vec<Rect> = Vec::new();
    let mut i: usize = 0;
    while i < rooms.len()
        invariant
            i <= rooms.len(),
            sorted@ == sorted_by_center_x(rooms@.subrange(0, i as int)),
            sorted@.len() == i,
        decreases rooms.len() - i,
    {
        let room = rooms[i];
        let key = room.center().x;
        let mut at: usize = sorted.len();
        while at > 0 && sorted[at - 1].center().x > key
            invariant
                at <= sorted.len(),
                key == center_x(room),
                forall|k: int| at <= k < sorted.len() ==> center_x(sorted@[k]) > center_x(room),
            decreases at,
        {
            at -= 1;
        }
        proof {
            let front = rooms@.subrange(0, i as int);
            let next = rooms@.subrange(0, i as int + 1);
            assert(next.drop_last() =~= front);
            assert(next.last() == room);
            lemma_insert_position(sorted@, room, at as int);
        }
        sorted.insert(at, room);
        i += 1;
    }
    proof {
        assert(rooms@.subrange(0, rooms@.len() as int) =~= rooms@);
        lemma_sorted_by_center_x(rooms@);
    }
    sorted
}

} // verus!
