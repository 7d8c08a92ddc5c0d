//! The punctuation and indentation state machine.
//!
//! The formatter owns the nesting depth, the kind of the innermost open
//! container, and the pending-space-after-colon flag, and emits every
//! structural token: braces, brackets, colons, newlines and indent runs.

use vstd::prelude::*;
use vstd::string::StrSliceExecFns;
use vstd::string::StringExecFns;

verus! {

/// Mathematical model of the formatter state.
pub struct FmtView {
    pub current_indent: nat,
    pub current_is_array: bool,
    pub stack: Seq<bool>,
    pub at_colon: bool,
    pub indent: Seq<char>,
    pub braces_same_line: bool,
}

impl FmtView {
    /// The saved container kinds match the nesting depth one to one.
    pub open spec fn wf(self) -> bool {
        self.stack.len() == self.current_indent
    }
}

pub open spec fn clamp0(x: int) -> nat {
    if x < 0 {
        0
    } else {
        x as nat
    }
}

/// `n` repetitions of the indentation unit.
pub open spec fn indent_seq(unit: Seq<char>, n: nat) -> Seq<char>
    decreases n,
{
    if n == 0 {
        Seq::empty()
    } else {
        indent_seq(unit, (n - 1) as nat) + unit
    }
}

/// What `start_value` writes: the deferred space after a colon, if any.
pub open spec fn sv_out(f: FmtView) -> Seq<char> {
    if f.at_colon {
        seq![' ']
    } else {
        Seq::empty()
    }
}

pub open spec fn sv_st(f: FmtView) -> FmtView {
    FmtView { at_colon: false, ..f }
}

/// What `newline` writes: a line break and indentation at the current
/// depth shifted by `add`, never negative.
pub open spec fn nl_out(f: FmtView, add: int) -> Seq<char> {
    seq!['\n'] + indent_seq(f.indent, clamp0(f.current_indent + add))
}

pub open spec fn nl_st(f: FmtView) -> FmtView {
    FmtView { at_colon: false, ..f }
}

/// What `comma` writes: a line break and indentation at the current depth.
/// Entries are separated by line breaks, not comma glyphs.
pub open spec fn comma_out(f: FmtView) -> Seq<char> {
    seq!['\n'] + indent_seq(f.indent, f.current_indent)
}

/// What `colon` writes. With same-line braces the space follows at once;
/// otherwise it is deferred to the next `start_value`.
pub open spec fn colon_out(f: FmtView) -> Seq<char> {
    if f.braces_same_line {
        seq![':', ' ']
    } else {
        seq![':']
    }
}

pub open spec fn colon_st(f: FmtView) -> FmtView {
    FmtView { at_colon: !f.braces_same_line, ..f }
}

/// What `open` writes before and with the opening bracket.
pub open spec fn open_out(f: FmtView, ch: char) -> Seq<char> {
    (if f.current_indent > 0 && !f.current_is_array && !f.braces_same_line {
        nl_out(f, 0)
    } else {
        sv_out(f)
    }) + seq![ch]
}

pub open spec fn open_st(f: FmtView, ch: char) -> FmtView {
    FmtView {
        current_indent: f.current_indent + 1,
        current_is_array: ch == '[',
        stack: f.stack.push(f.current_is_array),
        at_colon: false,
        ..f
    }
}

/// What `close` writes: a line break, indentation one level out, and the
/// closing bracket.
pub open spec fn close_out(f: FmtView, ch: char) -> Seq<char>
    recommends
        f.current_indent > 0,
{
    seq!['\n'] + indent_seq(f.indent, (f.current_indent - 1) as nat) + seq![ch]
}

pub open spec fn close_st(f: FmtView, ch: char) -> FmtView
    recommends
        f.current_indent > 0,
        f.stack.len() > 0,
{
    FmtView {
        current_indent: (f.current_indent - 1) as nat,
        current_is_array: f.stack.last(),
        stack: f.stack.drop_last(),
        ..f
    }
}

/// Writes `n` repetitions of the indent unit `s`.
pub fn indent(wr: &mut String, n: usize, s: &str)
    ensures
        final (wr)@ == old(wr)@ + indent_seq(s@, n as nat),
{
    let mut i: usize = 0;
    proof {
        assert(wr@ =~= old(wr)@ + indent_seq(s@, 0));
    }
    while i < n
        invariant
            i <= n,
            wr@ == old(wr)@ + indent_seq(s@, i as nat),
        decreases n - i,
    {
        wr.append(s);
        i += 1;
        proof {
            assert(wr@ =~= old(wr)@ + indent_seq(s@, i as nat));
        }
    }
}

/// The capability set a formatting style provides to the encoder: the
/// structural tokens around values. The state each style drives is modeled
/// by a [`FmtView`].
pub trait Formatter: View<V = FmtView> {
    /// Called when an opening `{` or `[` is to be written.
    fn open(&mut self, wr: &mut String, ch: u8)
        requires
            old(self)@.current_indent < usize::MAX,
            ch == 0x7bu8 || ch == 0x5bu8,
    ;

    /// Called before each container entry, first or not.
    fn comma(&mut self, wr: &mut String, first: bool);

    /// Called between a key and its value.
    fn colon(&mut self, wr: &mut String);

    /// Called when a closing `}` or `]` is to be written.
    fn close(&mut self, wr: &mut String, ch: u8)
        requires
            old(self)@.wf(),
            old(self)@.current_indent > 0,
            ch == 0x7du8 || ch == 0x5du8,
    ;

    /// A line break with indentation shifted by `add_indent`.
    fn newline(&mut self, wr: &mut String, add_indent: i32)
        requires
            old(self)@.current_indent + add_indent <= usize::MAX,
    ;

    /// Called before a scalar value is written.
    fn start_value(&mut self, wr: &mut String);
}

/// The concrete formatting style: entries on their own lines, braces on
/// their own line after a key, a deferred space after each colon.
pub struct HjsonFormatter<'a> {
    current_indent: usize,
    current_is_array: bool,
    stack: Vec<bool>,
    at_colon: bool,
    indent: &'a str,
    braces_same_line: bool,
}

impl<'a> View for HjsonFormatter<'a> {
    type V = FmtView;

    closed spec fn view(&self) -> FmtView {
        FmtView {
            current_indent: self.current_indent as nat,
            current_is_array: self.current_is_array,
            stack: self.stack@,
            at_colon: self.at_colon,
            indent: self.indent@,
            braces_same_line: self.braces_same_line,
        }
    }
}

impl<'a> HjsonFormatter<'a> {
    /// Construct a formatter that defaults to using two spaces for
    /// indentation.
    pub fn new() -> (f: Self)
        ensures
            f@ == (FmtView {
                current_indent: 0,
                current_is_array: false,
                stack: Seq::<bool>::empty(),
                at_colon: false,
                indent: seq![' ', ' '],
                braces_same_line: false,
            }),
    {
        let f = HjsonFormatter::with_indent("  ");
        proof {
            reveal_strlit("  ");
            assert(f@.indent =~= seq![' ', ' ']);
        }
        f
    }

    /// Construct a formatter that uses the `indent` string for
    /// indentation.
    pub fn with_indent(indent: &'a str) -> (f: Self)
        ensures
            f@ == (FmtView {
                current_indent: 0,
                current_is_array: false,
                stack: Seq::<bool>::empty(),
                at_colon: false,
                indent: indent@,
                braces_same_line: false,
            }),
    {
        let f = HjsonFormatter {
            current_indent: 0,
            current_is_array: false,
            stack: Vec::new(),
            at_colon: false,
            indent,
            braces_same_line: false,
        };
        proof {
            assert(f@.stack =~= Seq::<bool>::empty());
        }
        f
    }
}

impl<'a> Formatter for HjsonFormatter<'a> {
    fn open(&mut self, wr: &mut String, ch: u8)
        ensures
            final (self)@ == open_st(old(self)@, ch as char),
            final (wr)@ == old(wr)@ + open_out(old(self)@, ch as char),
    {
        if self.current_indent > 0 && !self.current_is_array && !self.braces_same_line {
            self.newline(wr, 0);
        } else {
            self.start_value(wr);
        }
        self.current_indent = self.current_indent + 1;
        let was_array = self.current_is_array;
        self.stack.push(was_array);
        self.current_is_array = ch == 0x5bu8;
        push_ascii(wr, ch);
        proof {
            assert(self@.stack =~= open_st(old(self)@, ch as char).stack);
            assert(wr@ =~= old(wr)@ + open_out(old(self)@, ch as char));
        }
    }

    fn comma(&mut self, wr: &mut String, first: bool)
        ensures
            final (self)@ == old(self)@,
            final (wr)@ == old(wr)@ + comma_out(old(self)@),
    {
        push_ascii(wr, 0x0au8);
        indent(wr, self.current_indent, self.indent);
        proof {
            assert(wr@ =~= old(wr)@ + comma_out(old(self)@));
        }
    }

    fn colon(&mut self, wr: &mut String)
        ensures
            final (self)@ == colon_st(old(self)@),
            final (wr)@ == old(wr)@ + colon_out(old(self)@),
    {
        self.at_colon = !self.braces_same_line;
        if self.braces_same_line {
            wr.append(": ");
            proof {
                reveal_strlit(": ");
                assert(wr@ =~= old(wr)@ + colon_out(old(self)@));
            }
        } else {
            wr.append(":");
            proof {
                reveal_strlit(":");
                assert(wr@ =~= old(wr)@ + colon_out(old(self)@));
            }
        }
    }

    fn close(&mut self, wr: &mut String, ch: u8)
        ensures
            final (self)@ == close_st(old(self)@, ch as char),
            final (wr)@ == old(wr)@ + close_out(old(self)@, ch as char),
    {
        self.current_indent = self.current_indent - 1;
        self.current_is_array = self.stack.pop().unwrap();
        push_ascii(wr, 0x0au8);
        indent(wr, self.current_indent, self.indent);
        push_ascii(wr, ch);
        proof {
            assert(self@.stack =~= close_st(old(self)@, ch as char).stack);
            assert(wr@ =~= old(wr)@ + close_out(old(self)@, ch as char));
        }
    }

    fn newline(&mut self, wr: &mut String, add_indent: i32)
        ensures
            final (self)@ == nl_st(old(self)@),
            final (wr)@ == old(wr)@ + nl_out(old(self)@, add_indent as int),
    {
        self.at_colon = false;
        push_ascii(wr, 0x0au8);
        let ii: i128 = self.current_indent as i128 + add_indent as i128;
        let n: usize = if ii < 0 {
            0
        } else {
            ii as usize
        };
        proof {
            assert(n as nat == clamp0(old(self)@.current_indent + add_indent as int));
        }
        indent(wr, n, self.indent);
        proof {
            assert(wr@ =~= old(wr)@ + nl_out(old(self)@, add_indent as int));
        }
    }

    fn start_value(&mut self, wr: &mut String)
        ensures
            final (self)@ == sv_st(old(self)@),
            final (wr)@ == old(wr)@ + sv_out(old(self)@),
    {
        if self.at_colon {
            self.at_colon = false;
            wr.append(" ");
            proof {
                reveal_strlit(" ");
                assert(wr@ =~= old(wr)@ + sv_out(old(self)@));
            }
        } else {
            proof {
                assert(wr@ =~= old(wr)@ + sv_out(old(self)@));
            }
        }
    }
}

/// Appends one structural ASCII byte to the output.
fn push_ascii(wr: &mut String, ch: u8)
    requires
        ch == 0x7bu8 || ch == 0x7du8 || ch == 0x5bu8 || ch == 0x5du8 || ch == 0x0au8,
    ensures
        final (wr)@ == old(wr)@ + seq![ch as char],
{
    if ch == 0x7bu8 {
        wr.append("{");
        proof {
            reveal_strlit("{");
            assert(wr@ =~= old(wr)@ + seq![ch as char]);
        }
    } else if ch == 0x7du8 {
        wr.append("}");
        proof {
            reveal_strlit("}");
            assert(wr@ =~= old(wr)@ + seq![ch as char]);
        }
    } else if ch == 0x5bu8 {
        wr.append("[");
        proof {
            reveal_strlit("[");
            assert(wr@ =~= old(wr)@ + seq![ch as char]);
        }
    } else if ch == 0x5du8 {
        wr.append("]");
        proof {
            reveal_strlit("]");
            assert(wr@ =~= old(wr)@ + seq![ch as char]);
        }
    } else {
        wr.append("\n");
        proof {
            reveal_strlit("\n");
            assert(wr@ =~= old(wr)@ + seq![ch as char]);
        }
    }
}

} // verus!
