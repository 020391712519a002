//! Small rules the shell applies between the screen and the library: how a
//! count is worded, what a collection's plays are stored under, which exit
//! of a set is which, and when an armed mix has to be abandoned.

use vstd::prelude::*;
use vstd::string::StringExecFns;

use crate::text::{
    char_at_is, chars_eq_ignore_case, chars_of, dec, dec_chars, eq_ignore_case, first_from,
    first_index_of, lemma_first_from_bounds, slice_chars, string_of, trim, trimmed,
};

verus! {

broadcast use vstd::string::group_string_axioms;

/// "12 tracks", and "1 track" rather than "1 tracks".
pub open spec fn tracks_text(n: nat) -> Seq<char> {
    dec(n) + if n == 1 {
        " track"@
    } else {
        " tracks"@
    }
}

/// "12 tracks", and "1 track" rather than "1 tracks".
pub fn tracks_line(n: usize) -> (r: String)
    ensures
        r@ == tracks_text(n as nat),
{
    let mut out = string_of(&dec_chars(n as u64));
    if n == 1 {
        out.append(" track");
    } else {
        out.append(" tracks");
    }
    out
}

/// Where a set was started from, when it was a playlist or a group: an
/// identity, so a renamed playlist keeps its count.
#[derive(Clone, Debug)]
pub struct CollectionRef {
    /// `"playlist"` or `"group"`. Anything else is ignored rather than
    /// rejected.
    pub kind: String,
    pub id: String,
}

/// The key a collection's plays are stored under: `playlist:<id>` or
/// `group:<id>`, the id trimmed. `None` for a blank id or a kind this does
/// not know.
pub open spec fn collection_key_of(kind: Seq<char>, id: Seq<char>) -> Option<Seq<char>> {
    let id = trim(id);
    if id.len() == 0 {
        None
    } else if kind == "playlist"@ {
        Some("playlist:"@ + id)
    } else if kind == "group"@ {
        Some("group:"@ + id)
    } else {
        None
    }
}

/// The key a collection's plays are stored under.
///
/// `None` for a kind this does not know, which keeps an unrecognised value
/// out of the map rather than inventing a shelf for it.
pub fn collection_key(reference: &CollectionRef) -> (r: Option<String>)
    ensures
        match r {
            Some(k) => collection_key_of(reference.kind@, reference.id@) == Some(k@),
            None => collection_key_of(reference.kind@, reference.id@) is None,
        },
{
    let idc = chars_of(reference.id.as_str());
    let id = string_of(&trimmed(idc.as_slice()));
    if id.as_str().is_empty() {
        return None;
    }
    let kind = chars_of(reference.kind.as_str());
    let playlist = chars_of("playlist");
    let group = chars_of("group");
    if crate::text::chars_eq(kind.as_slice(), playlist.as_slice()) {
        let mut out = String::from_str("playlist:");
        out.append(id.as_str());
        Some(out)
    } else if crate::text::chars_eq(kind.as_slice(), group.as_slice()) {
        let mut out = String::from_str("group:");
        out.append(id.as_str());
        Some(out)
    } else {
        None
    }
}

/// The unit separator that joins a transition's two hrefs in the skip map —
/// a character no href contains, so no two pairs share a key.
pub const SKIP_KEY_SEP: char = '\u{1f}';

/// The key a rejected transition from `from` to `to` is counted under.
pub fn skip_key(from: &str, to: &str) -> (r: String)
    ensures
        r@ == from@ + seq![SKIP_KEY_SEP] + to@,
{
    let mut out = String::from_str(from);
    let mut sep: Vec<char> = Vec::new();
    sep.push(SKIP_KEY_SEP);
    let sep = string_of(&sep);
    out.append(sep.as_str());
    out.append(to);
    out
}

/// A skip key read back: what comes before the first separator, and what
/// comes after it.
pub open spec fn split_skip(key: Seq<char>) -> Option<(Seq<char>, Seq<char>)> {
    let cut = first_from(key.len() as int, char_at_is(key, SKIP_KEY_SEP), 0);
    if cut < key.len() {
        Some((key.take(cut), key.skip(cut + 1)))
    } else {
        None
    }
}

/// The transition a skip key counts, in the shape the pathfinder wants;
/// `None` for a key with no separator in it.
pub fn split_skip_key(key: &str) -> (r: Option<(String, String)>)
    ensures
        match r {
            Some((from, to)) => split_skip(key@) == Some((from@, to@)),
            None => split_skip(key@) is None,
        },
{
    let k = chars_of(key);
    let cut = first_index_of(k.as_slice(), SKIP_KEY_SEP);
    proof {
        lemma_first_from_bounds(k@.len() as int, char_at_is(k@, SKIP_KEY_SEP), 0);
    }
    if cut >= k.len() {
        return None;
    }
    let from = string_of(&slice_chars(k.as_slice(), 0, cut));
    let to = string_of(&slice_chars(k.as_slice(), cut + 1, k.len()));
    proof {
        assert(from@ =~= key@.take(cut as int));
        assert(to@ =~= key@.skip(cut + 1));
    }
    Some((from, to))
}

/// Reading a skip key gives back the transition it was made from, when the
/// first href holds no separator, which no href does.
pub proof fn skip_key_round_trip(from: Seq<char>, to: Seq<char>)
    requires
        !from.contains(SKIP_KEY_SEP),
    ensures
        split_skip(from + seq![SKIP_KEY_SEP] + to) == Some((from, to)),
{
    let key = from + seq![SKIP_KEY_SEP] + to;
    let p = char_at_is(key, SKIP_KEY_SEP);
    lemma_first_from_bounds(key.len() as int, p, 0);
    let cut = first_from(key.len() as int, p, 0);
    assert(p(from.len() as int));
    if cut < from.len() {
        assert(key[cut] == from[cut]);
        assert(from.contains(SKIP_KEY_SEP));
    }
    assert(cut == from.len());
    assert(key.take(cut) =~= from);
    assert(key.skip(cut + 1) =~= to);
}

/// The three ways a person can steer a set.
#[derive(Debug, Clone, Copy, PartialEq, Eq)]
pub enum Exit {
    /// Hold roughly where the set is now, without advancing the curve.
    Stay,
    /// The planner's next track. The default, always.
    Follow,
    /// Branch off: audibly different, still mixable.
    Switch,
}

impl Exit {
    pub open spec fn label_text(self) -> Seq<char> {
        match self {
            Exit::Stay => "STAY"@,
            Exit::Follow => "FOLLOW"@,
            Exit::Switch => "SWITCH"@,
        }
    }

    /// The word on the card.
    pub fn label(self) -> (r: &'static str)
        ensures
            r@ == self.label_text(),
    {
        match self {
            Exit::Stay => "STAY",
            Exit::Follow => "FOLLOW",
            Exit::Switch => "SWITCH",
        }
    }
}

/// Whether an armed mix has to be abandoned because a different exit was
/// taken: something is armed, it is not the track that was chosen, and the
/// mix has not become audible yet.
pub fn mix_must_be_rearmed(armed_next: Option<&str>, chosen: &str, running: bool) -> (r: bool)
    ensures
        r == (!running && match armed_next {
            Some(armed) => armed@ != chosen@,
            None => false,
        }),
{
    if running {
        return false;
    }
    match armed_next {
        Some(armed) => {
            let a = chars_of(armed);
            let c = chars_of(chosen);
            !crate::text::chars_eq(a.as_slice(), c.as_slice())
        },
        None => false,
    }
}

/// What a machine's own name is, once the noise is taken off: trimmed, a
/// Bonjour `.local` dropped, trimmed again; `None` for nothing, or for
/// `localhost` in any case — every unnamed Linux box and every Android phone
/// reports that, and it would put them all under one name.
pub open spec fn machine_name_of(raw: Seq<char>) -> Option<Seq<char>> {
    let name = trim(raw);
    let suffix = ".local"@;
    let bare = if name.len() >= suffix.len() && name.skip(name.len() - suffix.len()) == suffix {
        trim(name.take(name.len() - suffix.len()))
    } else {
        trim(name)
    };
    if bare.len() == 0 || eq_ignore_case(bare, "localhost"@) {
        None
    } else {
        Some(bare)
    }
}

/// The name a machine goes by on the network, from what the platform said.
pub fn clean_machine_name(raw: &str) -> (r: Option<String>)
    ensures
        match r {
            Some(n) => machine_name_of(raw@) == Some(n@),
            None => machine_name_of(raw@) is None,
        },
{
    let rc = chars_of(raw);
    let name = trimmed(rc.as_slice());
    let suffix = chars_of(".local");
    let n = name.len();
    let s = suffix.len();
    let mut has_suffix = n >= s;
    if has_suffix {
        let tail = crate::text::slice_chars(name.as_slice(), n - s, n);
        assert(tail@ =~= name@.skip(n - s));
        has_suffix = crate::text::chars_eq(tail.as_slice(), suffix.as_slice());
    }
    let bare = if has_suffix {
        let head = crate::text::slice_chars(name.as_slice(), 0, n - s);
        assert(head@ =~= name@.take(n - s));
        trimmed(head.as_slice())
    } else {
        trimmed(name.as_slice())
    };
    let localhost = chars_of("localhost");
    if bare.len() == 0 || chars_eq_ignore_case(bare.as_slice(), localhost.as_slice()) {
        None
    } else {
        Some(string_of(&bare))
    }
}

/// An id for something the library names itself: `<prefix>_<micros>_<n>`,
/// from the time and a counter that makes two in one microsecond differ.
pub open spec fn id_text(prefix: Seq<char>, micros: nat, n: nat) -> Seq<char> {
    prefix + seq!['_'] + dec(micros) + seq!['_'] + dec(n)
}

pub fn id_of(prefix: &str, micros: u64, n: u64) -> (r: String)
    ensures
        r@ == id_text(prefix@, micros as nat, n as nat),
{
    proof {
        reveal_strlit("_");
    }
    let mut out = String::from_str(prefix);
    out.append("_");
    out.append(string_of(&dec_chars(micros)).as_str());
    out.append("_");
    out.append(string_of(&dec_chars(n)).as_str());
    assert(out@ =~= id_text(prefix@, micros as nat, n as nat));
    out
}

/// What a setting that was never written reads as, for the switches that
/// are on until turned off.
pub fn default_true() -> (r: bool)
    ensures
        r,
{
    true
}

/// The same default, for the sync choices: each kind of thing is synced
/// until the person says otherwise.
pub fn yes() -> (r: bool)
    ensures
        r,
{
    true
}

} // verus!
