//! Which downloaded tracks the device keeps: what the person pinned, what
//! is playing, and a window of the queue around the current track, so going
//! back is instant and the next mix has something to cue from. Everything
//! else was fetched to be read once.

use vstd::prelude::*;

use crate::text::{chars_eq, chars_of};

verus! {

/// How many played tracks keep their audio.
pub const KEEP_BEHIND: usize = 3;

/// How many upcoming tracks keep their audio: the next one arms a mix, the
/// rest are for skipping.
pub const KEEP_AHEAD: usize = 5;

/// The first and last queue positions kept around position `at` of a queue
/// of `len` tracks.
pub open spec fn window_of(len: int, at: int) -> (int, int) {
    let from = if at >= KEEP_BEHIND {
        at - KEEP_BEHIND
    } else {
        0
    };
    let last = if len >= 1 {
        len - 1
    } else {
        0
    };
    let to = if at + KEEP_AHEAD <= last {
        at + KEEP_AHEAD
    } else {
        last
    };
    (from, to)
}

/// `href` is in the queue's window around `at`.
pub open spec fn in_window(queue: Seq<Seq<char>>, at: Option<usize>, href: Seq<char>) -> bool {
    match at {
        None => false,
        Some(a) => {
            let (from, to) = window_of(queue.len() as int, a as int);
            to < queue.len() && exists|i: int| from <= i <= to && #[trigger] queue[i] == href
        },
    }
}

/// Whether the audio of `href` is kept.
pub open spec fn keeps(
    pinned: bool,
    playing: Option<Seq<char>>,
    queue: Seq<Seq<char>>,
    at: Option<usize>,
    href: Seq<char>,
) -> bool {
    pinned || playing == Some(href) || in_window(queue, at, href)
}

/// The queue as plain text.
pub open spec fn queue_view(queue: Seq<String>) -> Seq<Seq<char>> {
    queue.map_values(|h: String| h@)
}

/// Whether the device keeps the audio of `href`: `pinned` says the person
/// pinned it, `playing` is what is playing, `queue` and `at` the queue and
/// the current position in it.
pub fn keeps_audio(
    pinned: bool,
    playing: Option<&str>,
    queue: &Vec<String>,
    at: Option<usize>,
    href: &str,
) -> (r: bool)
    ensures
        r == keeps(
            pinned,
            match playing {
                Some(p) => Some(p@),
                None => None,
            },
            queue_view(queue@),
            at,
            href@,
        ),
{
    if pinned {
        return true;
    }
    let h = chars_of(href);
    if let Some(p) = playing {
        let pc = chars_of(p);
        if chars_eq(pc.as_slice(), h.as_slice()) {
            return true;
        }
    }
    let ghost q = queue_view(queue@);
    let a = match at {
        Some(a) => a,
        None => return false,
    };
    let len = queue.len();
    let from = if a >= KEEP_BEHIND {
        a - KEEP_BEHIND
    } else {
        0
    };
    let last = if len >= 1 {
        len - 1
    } else {
        0
    };
    let to = if a <= last && last - a >= KEEP_AHEAD {
        a + KEEP_AHEAD
    } else {
        last
    };
    assert((from as int, to as int) == window_of(len as int, a as int));
    if to >= len || from > to {
        return false;
    }
    assert(q.len() == len);
    let mut i = from;
    while i <= to
        invariant
            q == queue_view(queue@),
            from <= i <= to + 1,
            to < len,
            len == queue@.len(),
            (from as int, to as int) == window_of(len as int, a as int),
            at == Some(a),
            h@ == href@,
            forall|k: int| from <= k < i ==> #[trigger] q[k] != h@,
        decreases to + 1 - i,
    {
        let item = chars_of(queue[i].as_str());
        assert(q[i as int] == queue@[i as int]@);
        if chars_eq(item.as_slice(), h.as_slice()) {
            assert(from <= i <= to && q[i as int] == h@);
            return true;
        }
        i += 1;
    }
    false
}

/// The track being played from the queue always keeps its audio.
pub proof fn the_current_track_is_kept(queue: Seq<Seq<char>>, at: usize)
    requires
        at < queue.len(),
    ensures
        forall|pinned: bool, playing: Option<Seq<char>>|
            keeps(pinned, playing, queue, Some(at), #[trigger] queue[at as int]),
{
    let (from, to) = window_of(queue.len() as int, at as int);
    assert(from <= at <= to < queue.len());
    assert(queue[at as int] == queue[at as int]);
}

/// The next track in the queue keeps its audio too, so the next mix has it.
pub proof fn the_next_track_is_kept(queue: Seq<Seq<char>>, at: usize)
    requires
        at + 1 < queue.len(),
    ensures
        in_window(queue, Some(at), queue[at + 1]),
{
    let (from, to) = window_of(queue.len() as int, at as int);
    assert(from <= at + 1 <= to < queue.len());
}

} // verus!
