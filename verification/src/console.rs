//! A console that collects the characters sent to it into lines of a fixed
//! width and shows the last of them.

use crate::text::string_push;
use std::sync::mpsc::Receiver;
use vstd::prelude::*;

verus! {

broadcast use vstd::string::group_string_axioms;

/// The receiving end of a channel of the standard library. Nothing is known
/// of what it holds.
#[verifier::external_type_specification]
#[verifier::external_body]
#[verifier::reject_recursive_types(T)]
pub struct ExReceiver<T>(Receiver<T>);

/// What travels over the channel that feeds a console: eight characters, or
/// the mark that the stream has ended.
#[derive(Copy, Clone, Debug)]
pub enum Packet {
    Chars([char; 8]),
    End,
}

/// The character that ends a line.
pub open spec fn line_end() -> char {
    '\n'
}

/// What a console shows, as plain mathematics.
pub struct Screen {
    /// The lines that are complete, the oldest first.
    pub lines: Seq<Seq<char>>,
    /// The line that is being written.
    pub current: Seq<char>,
    /// How many characters the current line has taken.
    pub cursor: nat,
    /// How many characters a line takes before it is wrapped.
    pub width: nat,
}

/// The entries written one below the other, each after a line end.
pub open spec fn stacked(entries: Seq<Seq<char>>) -> Seq<char>
    decreases entries.len(),
{
    if entries.len() == 0 {
        Seq::empty()
    } else {
        stacked(entries.drop_last()) + seq![line_end()] + entries.last()
    }
}

impl Screen {
    /// The screen of a console to which nothing was sent.
    pub open spec fn blank(width: nat) -> Screen {
        Screen { lines: Seq::empty(), current: Seq::empty(), cursor: 0, width }
    }

    /// The screen after the current line is completed and a new one begun.
    pub open spec fn wrap(self) -> Screen {
        Screen { lines: self.lines.push(self.current), current: Seq::empty(), cursor: 0, ..self }
    }

    /// The screen after the character `c` has arrived. A line end completes
    /// the current line and is not kept. Any other character goes to the end
    /// of the current line, or, where that line is full, completes it and
    /// begins the next.
    pub open spec fn put(self, c: char) -> Screen {
        if c == line_end() {
            self.wrap()
        } else if self.cursor < self.width {
            Screen { current: self.current.push(c), cursor: self.cursor + 1, ..self }
        } else {
            Screen { current: seq![c], cursor: 1, ..self.wrap() }
        }
    }

    /// The screen after the characters of `chars` have arrived in order.
    pub open spec fn put_all(self, chars: Seq<char>) -> Screen
        decreases chars.len(),
    {
        if chars.len() == 0 {
            self
        } else {
            self.put_all(chars.drop_last()).put(chars.last())
        }
    }

    /// The screen after `packet` has arrived: all eight characters of a
    /// packet of characters are put; the end mark changes nothing.
    pub open spec fn accept(self, packet: Packet) -> Screen {
        match packet {
            Packet::Chars(chars) => self.put_all(chars@),
            Packet::End => self,
        }
    }

    /// The entries that a view of at most `max_lines` complete lines shows:
    /// the last complete lines, the oldest of them first, and then the
    /// current line.
    pub open spec fn shown(self, max_lines: nat) -> Seq<Seq<char>> {
        let count = if max_lines < self.lines.len() {
            max_lines
        } else {
            self.lines.len()
        };
        self.lines.skip(self.lines.len() - count).push(self.current)
    }

    /// The text of a view of at most `max_lines` complete lines.
    pub open spec fn render(self, max_lines: nat) -> Seq<char> {
        stacked(self.shown(max_lines))
    }

    /// The most that a line holds: the width, but one character at least.
    pub open spec fn capacity(self) -> nat {
        if self.width == 0 {
            1
        } else {
            self.width
        }
    }

    /// The cursor stands at the end of the current line, and no line is
    /// longer than a line can be.
    pub open spec fn tidy(self) -> bool {
        &&& self.cursor == self.current.len()
        &&& self.current.len() <= self.capacity()
        &&& forall|i: int|
            0 <= i < self.lines.len() ==> (#[trigger] self.lines[i]).len() <= self.capacity()
    }

    /// A tidy screen stays tidy whatever arrives.
    pub proof fn lemma_put_keeps_tidy(self, c: char)
        requires
            self.tidy(),
        ensures
            self.put(c).tidy(),
            self.put(c).width == self.width,
    {
    }

    /// A tidy screen stays tidy whatever arrives.
    pub proof fn lemma_put_all_keeps_tidy(self, chars: Seq<char>)
        requires
            self.tidy(),
        ensures
            self.put_all(chars).tidy(),
            self.put_all(chars).width == self.width,
        decreases chars.len(),
    {
        if chars.len() > 0 {
            self.lemma_put_all_keeps_tidy(chars.drop_last());
            self.put_all(chars.drop_last()).lemma_put_keeps_tidy(chars.last());
        }
    }

    /// No character is lost: what arrives on a line that is full opens the
    /// next line, and nothing but line ends is left out.
    pub proof fn lemma_put_keeps_character(self, c: char)
        requires
            c != line_end(),
        ensures
            self.put(c).current.len() > 0,
            self.put(c).current.last() == c,
    {
    }
}

/// A console: the lines that are complete, the line that is being written,
/// and the channel that characters come from.
pub struct Console {
    pub previous_lines: Vec<String>,
    current_line: String,
    cursor_position: u32,
    text_width: u32,
    receiver: Option<Receiver<Packet>>,
}

impl Console {
    /// The channel that the console reads from, if it was given one.
    pub closed spec fn source(&self) -> Option<Receiver<Packet>> {
        self.receiver
    }

    /// What the console shows.
    pub closed spec fn screen(&self) -> Screen {
        Screen {
            lines: self.previous_lines@.map_values(|line: String| line@),
            current: self.current_line@,
            cursor: self.cursor_position as nat,
            width: self.text_width as nat,
        }
    }

    /// A console with lines of `width` characters, with nothing on it and no
    /// channel to read from.
    pub fn new(width: u32) -> (console: Console)
        ensures
            console.screen() == Screen::blank(width as nat),
            console.source() is None,
    {
        let console = Console {
            previous_lines: Vec::new(),
            current_line: String::new(),
            cursor_position: 0,
            text_width: width,
            receiver: None,
        };
        assert(console.previous_lines@.map_values(|line: String| line@) == Seq::<
            Seq<char>,
        >::empty());
        console
    }

    /// Makes `receiver` the channel that the console reads from.
    pub fn give_receiver(&mut self, receiver: Receiver<Packet>)
        ensures
            final(self).source() == Some(receiver),
            final(self).screen() == old(self).screen(),
    {
        self.receiver = Some(receiver);
    }

    /// Takes at most one packet from the channel, without waiting, and puts
    /// its characters on the screen.
    ///
    /// Nothing changes where the console has no channel. Otherwise the
    /// channel decides: the screen stays as it was, or it is the screen after
    /// some packet has arrived.
    pub fn receive(&mut self)
        ensures
            final(self).source() == old(self).source(),
            old(self).source() is None ==> final(self).screen() == old(self).screen(),
            final(self).screen() == old(self).screen() || exists|packet: Packet|
                final(self).screen() == #[trigger] old(self).screen().accept(packet),
            old(self).screen().tidy() ==> final(self).screen().tidy(),
    {
        let polled = match &self.receiver {
            Some(rec) => try_receive(rec),
            None => None,
        };
        match polled {
            Some(packet) => {
                self.push(packet);
            },
            None => {},
        }
    }

    /// Puts what `packet` carries on the screen: each of its eight
    /// characters in turn, or nothing for the end mark.
    pub fn push(&mut self, packet: Packet)
        ensures
            final(self).source() == old(self).source(),
            final(self).screen() == old(self).screen().accept(packet),
            old(self).screen().tidy() ==> final(self).screen().tidy(),
    {
        match packet {
            Packet::Chars(t) => {
                let mut i: usize = 0;
                while i < 8
                    invariant
                        i <= 8,
                        self.source() == old(self).source(),
                        self.screen() == old(self).screen().put_all(t@.take(i as int)),
                    decreases 8 - i,
                {
                    assert(t@.take(i + 1).drop_last() == t@.take(i as int));
                    self.push_char(t[i]);
                    i += 1;
                }
                assert(t@.take(8) == t@);
            },
            Packet::End => {},
        }
        proof {
            if old(self).screen().tidy() {
                match packet {
                    Packet::Chars(t) => old(self).screen().lemma_put_all_keeps_tidy(t@),
                    Packet::End => {},
                }
            }
        }
    }

    /// Puts the character `c` on the screen.
    pub fn push_char(&mut self, c: char)
        ensures
            final(self).source() == old(self).source(),
            final(self).screen() == old(self).screen().put(c),
            old(self).screen().tidy() ==> final(self).screen().tidy(),
    {
        if c == '\n' {
            self.newline();
        } else if self.cursor_position < self.text_width {
            self.cursor_position += 1;
            string_push(&mut self.current_line, c);
        } else {
            self.newline();
            self.cursor_position = 1;
            string_push(&mut self.current_line, c);
        }
        assert(Seq::<char>::empty().push(c) == seq![c]);
    }

    /// Completes the current line and begins a new one.
    pub fn newline(&mut self)
        ensures
            final(self).source() == old(self).source(),
            final(self).screen() == old(self).screen().wrap(),
    {
        let ghost lines = self.previous_lines@.map_values(|line: String| line@);
        self.previous_lines.push(self.current_line.clone());
        self.cursor_position = 0;
        self.current_line = String::new();
        assert(self.previous_lines@.map_values(|line: String| line@) == lines.push(
            old(self).current_line@,
        ));
    }

    /// The text of the screen: the last complete lines, at most `max_lines`
    /// of them and the oldest first, and then the current line, each after a
    /// line end.
    pub fn view(&self, max_lines: u32) -> (screen: String)
        ensures
            screen@ == self.screen().render(max_lines as nat),
    {
        let mut screen = String::new();
        let total = self.previous_lines.len();
        let size: usize = if (max_lines as usize) < total {
            max_lines as usize
        } else {
            total
        };
        let ghost lines = self.screen().lines;
        let ghost last = lines.skip(total - size);
        let mut i: usize = total - size;
        proof {
            reveal_strlit("\n");
            assert("\n"@ == seq![line_end()]);
        }
        while i < total
            invariant
                size <= total,
                total - size <= i <= total,
                total == self.previous_lines.len(),
                lines == self.screen().lines,
                last == lines.skip(total - size),
                "\n"@ == seq![line_end()],
                screen@ == stacked(last.take(i - (total - size))),
            decreases total - i,
        {
            proof {
                let read = last.take(i + 1 - (total - size));
                assert(read.drop_last() == last.take(i - (total - size)));
                assert(read.last() == self.previous_lines[i as int]@);
            }
            screen.append("\n");
            screen.append(self.previous_lines[i].as_str());
            i += 1;
        }
        proof {
            assert(last.take(size as int) == last);
            assert(self.screen().shown(max_lines as nat).drop_last() == last);
        }
        screen.append("\n");
        screen.append(self.current_line.as_str());
        screen
    }

    /// The lines that are complete, the oldest first.
    pub fn previous_lines(&self) -> (lines: &Vec<String>)
        ensures
            lines@.map_values(|line: String| line@) == self.screen().lines,
    {
        &self.previous_lines
    }

    /// The line that is being written.
    pub fn current_line(&self) -> (line: &String)
        ensures
            line@ == self.screen().current,
    {
        &self.current_line
    }

    /// How many characters the current line has taken.
    pub fn cursor_position(&self) -> (cursor: u32)
        ensures
            cursor == self.screen().cursor,
    {
        self.cursor_position
    }
}

/// `Receiver::try_recv` of the standard library: takes a packet from the
/// channel if one is waiting, and does not wait for one. What comes back
/// depends on the other end of the channel, so nothing is claimed of it; a
/// channel that is empty or closed gives `None`.
#[verifier::external_body]
fn try_receive(receiver: &Receiver<Packet>) -> (packet: Option<Packet>) {
    receiver.try_recv().ok()
}

} // verus!
