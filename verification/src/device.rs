//! Device paths: the names on the way from the root to a device, written
//! with `/` between them.

use crate::text::string_push;
use vstd::prelude::*;

verus! {

broadcast use vstd::string::group_string_axioms;

/// The names on the way from the root to a device, the root's first.
#[derive(PartialEq, Eq, Clone, Debug)]
pub struct DevicePath {
    pub path: Vec<String>,
}

/// A device as the record of an owned tree: its name, the devices below it
/// and the device above it.
pub struct Device {
    id: String,
    connected_devices: Vec<Device>,
    parent_device: Option<Box<Device>>,
}

/// The character that separates the names of a path.
pub open spec fn separator() -> char {
    '/'
}

/// `done` with the segment `open` added, unless `open` is empty.
pub open spec fn close(done: Seq<Seq<char>>, open: Seq<char>) -> Seq<Seq<char>> {
    if open.len() == 0 {
        done
    } else {
        done.push(open)
    }
}

/// Reading `s` from the left: the segments that a separator has ended, and
/// the characters read since the last separator.
pub open spec fn split(s: Seq<char>) -> (Seq<Seq<char>>, Seq<char>)
    decreases s.len(),
{
    if s.len() == 0 {
        (Seq::empty(), Seq::empty())
    } else {
        let (done, open) = split(s.drop_last());
        if s.last() == separator() {
            (close(done, open), Seq::empty())
        } else {
            (done, open.push(s.last()))
        }
    }
}

/// The segments of `s`: its maximal runs of characters other than the
/// separator, in order. Empty runs are no segments.
pub open spec fn segments(s: Seq<char>) -> Seq<Seq<char>> {
    close(split(s).0, split(s).1)
}

/// The segments written one after the other with a separator between each
/// two.
pub open spec fn joined(segments: Seq<Seq<char>>) -> Seq<char>
    decreases segments.len(),
{
    if segments.len() == 0 {
        Seq::empty()
    } else if segments.len() == 1 {
        segments[0]
    } else {
        joined(segments.drop_last()) + seq![separator()] + segments.last()
    }
}

impl View for DevicePath {
    type V = Seq<Seq<char>>;

    open spec fn view(&self) -> Seq<Seq<char>> {
        self.path@.map_values(|name: String| name@)
    }
}

impl<'a> From<&'a str> for DevicePath {
    /// Reads a path from its written form. Separators at either end and
    /// repeated separators are passed over.
    fn from(s: &'a str) -> (path: DevicePath)
        ensures
            path@ == segments(s@),
    {
        let mut path: Vec<String> = Vec::new();
        let mut part = String::new();
        for c in it: s.chars()
            invariant
                it.seq() == s@,
                path@.map_values(|name: String| name@) == split(s@.take(it.index())).0,
                part@ == split(s@.take(it.index())).1,
        {
            proof {
                let read = s@.take(it.index() + 1);
                assert(read.drop_last() == s@.take(it.index()));
                assert(read.last() == c);
            }
            let ghost names = path@.map_values(|name: String| name@);
            if c == '/' {
                if !part.as_str().is_empty() {
                    path.push(part);
                    assert(path@.map_values(|name: String| name@) == names.push(part@));
                }
                part = String::new();
            } else {
                string_push(&mut part, c);
            }
        }
        assert(s@.take(s@.len() as int) == s@);
        let ghost names = path@.map_values(|name: String| name@);
        if !part.as_str().is_empty() {
            path.push(part);
            assert(path@.map_values(|name: String| name@) == names.push(part@));
        }
        DevicePath { path }
    }
}

impl<'a> vstd::std_specs::convert::FromSpecImpl<&'a str> for DevicePath {
    /// Two paths read from one string are equal in their names, not in the
    /// memory that holds them: what `from` returns is stated over its view.
    open spec fn obeys_from_spec() -> bool {
        false
    }

    open spec fn from_spec(s: &'a str) -> DevicePath {
        arbitrary()
    }
}

impl DevicePath {
    /// The written form of the path: its names with a separator between each
    /// two, and none at either end.
    pub fn to_string(&self) -> (s: String)
        ensures
            s@ == joined(self@),
    {
        let mut s = String::new();
        let mut i: usize = 0;
        while i < self.path.len()
            invariant
                i <= self.path.len(),
                s@ == joined(self@.take(i as int)),
            decreases self.path.len() - i,
        {
            proof {
                let read = self@.take(i + 1);
                assert(read.drop_last() == self@.take(i as int));
                assert(read.last() == self.path[i as int]@);
                reveal_strlit("/");
                assert("/"@ == seq![separator()]);
            }
            if i > 0 {
                s.append("/");
            }
            s.append(self.path[i].as_str());
            i += 1;
        }
        assert(self@.take(self.path.len() as int) == self@);
        s
    }
}

/// A name: a segment that is not empty and holds no separator.
pub open spec fn is_name(segment: Seq<char>) -> bool {
    segment.len() > 0 && !segment.contains(separator())
}

/// Every segment is a name.
pub open spec fn all_names(segments: Seq<Seq<char>>) -> bool {
    forall|i: int| 0 <= i < segments.len() ==> is_name(#[trigger] segments[i])
}

/// While `s` is read, every segment that was ended is a name, and the
/// characters read since the last separator hold no separator.
proof fn lemma_split_yields_names(s: Seq<char>)
    ensures
        all_names(split(s).0),
        !split(s).1.contains(separator()),
    decreases s.len(),
{
    if s.len() > 0 {
        lemma_split_yields_names(s.drop_last());
        let (done, open) = split(s.drop_last());
        if s.last() != separator() {
            let grown = open.push(s.last());
            assert forall|i: int| 0 <= i < grown.len() implies grown[i] != separator() by {
                if i < open.len() {
                    assert(open.contains(open[i]));
                }
            }
        }
    }
}

/// Reading on over characters that are no separators only extends the
/// segment that is open.
proof fn lemma_split_over_name(s: Seq<char>, tail: Seq<char>)
    requires
        !tail.contains(separator()),
    ensures
        split(s + tail) == (split(s).0, split(s).1 + tail),
    decreases tail.len(),
{
    if tail.len() == 0 {
        assert(s + tail == s);
        assert(split(s).1 + tail == split(s).1);
    } else {
        assert((s + tail).drop_last() == s + tail.drop_last());
        assert((s + tail).last() == tail.last());
        assert(tail.contains(tail.last()));
        assert forall|i: int| 0 <= i < tail.drop_last().len() implies tail.drop_last()[i]
            != separator() by {
            assert(tail.contains(tail[i]));
        }
        lemma_split_over_name(s, tail.drop_last());
        assert(split(s).1 + tail == (split(s).1 + tail.drop_last()).push(tail.last()));
    }
}

/// Every segment of a string is a name.
pub proof fn lemma_segments_are_names(s: Seq<char>)
    ensures
        all_names(segments(s)),
{
    lemma_split_yields_names(s);
}

/// **Path round-trip.** Names that are written as a path and read again are
/// the same names.
pub proof fn lemma_written_path_reads_back(names: Seq<Seq<char>>)
    requires
        all_names(names),
    ensures
        segments(joined(names)) == names,
    decreases names.len(),
{
    let empty = Seq::<char>::empty();
    if names.len() == 0 {
    } else if names.len() == 1 {
        lemma_split_over_name(empty, names[0]);
        assert(empty + names[0] == names[0]);
        assert(close(Seq::empty(), names[0]) == names);
    } else {
        let before = names.drop_last();
        lemma_written_path_reads_back(before);
        let ended = joined(before) + seq![separator()];
        assert(ended.drop_last() == joined(before));
        assert(split(ended) == (before, empty));
        lemma_split_over_name(ended, names.last());
        assert(empty + names.last() == names.last());
        assert(close(before, names.last()) == names);
    }
}

/// **Path round-trip.** Reading a string as a path and writing the path
/// gives a string that reads as the same path, and that is written as
/// itself when read again: surplus separators are lost only once.
pub proof fn lemma_reading_normalizes(s: Seq<char>)
    ensures
        segments(joined(segments(s))) == segments(s),
        joined(segments(joined(segments(s)))) == joined(segments(s)),
{
    lemma_segments_are_names(s);
    lemma_written_path_reads_back(segments(s));
}

} // verus!
