//! A canvas that records drawing commands as a JSON array of tagged objects,
//! one object per command, in the order they were issued.

use vstd::prelude::*;
use vstd::string::*;
use crate::catalog::string_push;

verus! {

/// A lowercase hexadecimal digit.
pub open spec fn hex_char(d: int) -> char {
    if d < 10 {
        digit_char(d)
    } else if d == 10 {
        'a'
    } else if d == 11 {
        'b'
    } else if d == 12 {
        'c'
    } else if d == 13 {
        'd'
    } else if d == 14 {
        'e'
    } else {
        'f'
    }
}

/// How a JSON string literal writes one character: quote and backslash
/// behind a backslash, the five named control characters by their letter,
/// the other control characters as `\u00XX`, everything else as it is.
pub open spec fn escape_char(c: char) -> Seq<char> {
    let v = c as u32;
    if c == '"' {
        seq!['\\', '"']
    } else if c == '\\' {
        seq!['\\', '\\']
    } else if v == 8 {
        seq!['\\', 'b']
    } else if v == 9 {
        seq!['\\', 't']
    } else if v == 10 {
        seq!['\\', 'n']
    } else if v == 12 {
        seq!['\\', 'f']
    } else if v == 13 {
        seq!['\\', 'r']
    } else if v < 0x20 {
        seq!['\\', 'u', '0', '0', hex_char(v as int / 16), hex_char(v as int % 16)]
    } else {
        seq![c]
    }
}

/// The characters of `s`, each escaped.
pub open spec fn escaped(s: Seq<char>) -> Seq<char>
    decreases s.len(),
{
    if s.len() == 0 {
        Seq::empty()
    } else {
        escaped(s.drop_last()) + escape_char(s.last())
    }
}

/// The JSON string literal that holds `s`, as `serde_json` writes it.
pub open spec fn json_string(s: Seq<char>) -> Seq<char> {
    seq!['"'] + escaped(s) + seq!['"']
}

/// Relies on `serde_json::to_string` on a `str`: the JSON string literal of
/// the text, escaped as `escape_char` says. Serialising a `str` into memory
/// does not fail.
#[verifier::external_body]
fn json_quote(s: &str) -> (r: String)
    ensures
        r@ == json_string(s@),
{
    serde_json::to_string(s).unwrap_or_default()
}

pub open spec fn digit_char(d: int) -> char {
    if d == 0 {
        '0'
    } else if d == 1 {
        '1'
    } else if d == 2 {
        '2'
    } else if d == 3 {
        '3'
    } else if d == 4 {
        '4'
    } else if d == 5 {
        '5'
    } else if d == 6 {
        '6'
    } else if d == 7 {
        '7'
    } else if d == 8 {
        '8'
    } else {
        '9'
    }
}

/// The decimal digits of `n`, most significant first.
pub open spec fn digits(n: nat) -> Seq<char>
    decreases n,
{
    if n < 10 {
        seq![digit_char(n as int)]
    } else {
        digits(n / 10).push(digit_char((n % 10) as int))
    }
}

/// `v` in decimal, with a leading minus sign when negative.
pub open spec fn decimal(v: int) -> Seq<char> {
    if v < 0 {
        seq!['-'] + digits((-v) as nat)
    } else {
        digits(v as nat)
    }
}

/// The commands joined with commas.
pub open spec fn joined(cs: Seq<Seq<char>>) -> Seq<char>
    decreases cs.len(),
{
    if cs.len() == 0 {
        Seq::empty()
    } else if cs.len() == 1 {
        cs[0]
    } else {
        joined(cs.drop_last()) + seq![','] + cs.last()
    }
}

/// A command with a point: `{"type":"<kind>","x":<x>,"y":<y>}`.
pub open spec fn point_command(kind: Seq<char>, x: int, y: int) -> Seq<char> {
    "{\"type\":\""@ + kind + "\",\"x\":"@ + decimal(x) + ",\"y\":"@ + decimal(y) + "}"@
}

/// A command with a box: `{"type":"<kind>","x":..,"y":..,"w":..,"h":..}`.
pub open spec fn box_command(kind: Seq<char>, x: int, y: int, w: int, h: int) -> Seq<char> {
    "{\"type\":\""@ + kind + "\",\"x\":"@ + decimal(x) + ",\"y\":"@ + decimal(y) + ",\"w\":"@ + decimal(w)
        + ",\"h\":"@ + decimal(h) + "}"@
}

/// A command with a text value: `{"type":"<kind>","val":<json string>}`.
pub open spec fn value_command(kind: Seq<char>, v: Seq<char>) -> Seq<char> {
    "{\"type\":\""@ + kind + "\",\"val\":"@ + json_string(v) + "}"@
}

/// A command with nothing but its kind: `{"type":"<kind>"}`.
pub open spec fn bare_command(kind: Seq<char>) -> Seq<char> {
    "{\"type\":\""@ + kind + "\"}"@
}

/// The text command: `{"type":"fillText","text":<json string>,"x":..,"y":..}`.
pub open spec fn text_command(text: Seq<char>, x: int, y: int) -> Seq<char> {
    "{\"type\":\"fillText\",\"text\":"@ + json_string(text) + ",\"x\":"@ + decimal(x) + ",\"y\":"@ + decimal(y)
        + "}"@
}

fn digit(d: u64) -> (r: char)
    requires
        d < 10,
    ensures
        r == digit_char(d as int),
{
    if d == 0 {
        '0'
    } else if d == 1 {
        '1'
    } else if d == 2 {
        '2'
    } else if d == 3 {
        '3'
    } else if d == 4 {
        '4'
    } else if d == 5 {
        '5'
    } else if d == 6 {
        '6'
    } else if d == 7 {
        '7'
    } else if d == 8 {
        '8'
    } else {
        '9'
    }
}

fn push_digits(s: &mut String, n: u64)
    ensures
        final(s)@ == old(s)@ + digits(n as nat),
    decreases n,
{
    if n >= 10 {
        push_digits(s, n / 10);
    }
    string_push(s, digit(n % 10));
    proof {
        if n >= 10 {
            assert(final(s)@ =~= old(s)@ + digits(n as nat));
        } else {
            assert(final(s)@ =~= old(s)@ + digits(n as nat));
        }
    }
}

/// Appends `v` in decimal.
fn push_decimal(s: &mut String, v: i64)
    ensures
        final(s)@ == old(s)@ + decimal(v as int),
{
    if v < 0 {
        string_push(s, '-');
        let m: u64 = (-(v as i128)) as u64;
        push_digits(s, m);
        assert(final(s)@ =~= old(s)@ + decimal(v as int));
    } else {
        push_digits(s, v as u64);
    }
}

/// Records drawing commands as a JSON array.
pub struct JsonCanvas {
    has_commands: bool,
    cmds: String,
    commands: Ghost<Seq<Seq<char>>>,
}

impl JsonCanvas {
    /// The commands recorded so far, in order.
    pub closed spec fn commands(&self) -> Seq<Seq<char>> {
        self.commands@
    }

    pub closed spec fn wf(&self) -> bool {
        &&& self.has_commands == (self.commands@.len() > 0)
        &&& self.cmds@ == "["@ + joined(self.commands@)
    }

    /// A canvas with no commands.
    pub fn new() -> (r: JsonCanvas)
        ensures
            r.wf(),
            r.commands() == Seq::<Seq<char>>::empty(),
    {
        let r = JsonCanvas { has_commands: false, cmds: String::from_str("["), commands: Ghost(Seq::empty()) };
        assert(r.cmds@ =~= "["@ + joined(Seq::<Seq<char>>::empty()));
        r
    }

    /// Records one command, given as its JSON object.
    pub fn append(&mut self, cmd: &str)
        requires
            old(self).wf(),
        ensures
            final(self).wf(),
            final(self).commands() == old(self).commands().push(cmd@),
    {
        let ghost cs = self.commands@;
        proof {
            reveal_strlit(",");
            assert(","@ =~= seq![',']);
        }
        if self.has_commands {
            self.cmds.append(",");
        }
        self.has_commands = true;
        self.cmds.append(cmd);
        self.commands = Ghost(cs.push(cmd@));
        proof {
            let ncs = cs.push(cmd@);
            assert(ncs.drop_last() =~= cs);
            if cs.len() == 0 {
                assert(joined(ncs) == cmd@);
            } else {
                assert(joined(ncs) == joined(cs) + seq![','] + cmd@);
            }
            assert(self.cmds@ =~= "["@ + joined(ncs));
        }
    }

    /// The JSON array of the recorded commands.
    pub fn serialize(self) -> (r: String)
        requires
            self.wf(),
        ensures
            r@ == "["@ + joined(self.commands()) + "]"@,
    {
        self.cmds.concat("]")
    }

    fn point(self, kind: &str, x: i64, y: i64) -> (r: JsonCanvas)
        requires
            self.wf(),
        ensures
            r.wf(),
            r.commands() == self.commands().push(point_command(kind@, x as int, y as int)),
    {
        let mut c = String::from_str("{\"type\":\"");
        c.append(kind);
        c.append("\",\"x\":");
        push_decimal(&mut c, x);
        c.append(",\"y\":");
        push_decimal(&mut c, y);
        c.append("}");
        assert(c@ =~= point_command(kind@, x as int, y as int));
        let mut s = self;
        s.append(c.as_str());
        s
    }

    fn boxed(self, kind: &str, x: i64, y: i64, w: i64, h: i64) -> (r: JsonCanvas)
        requires
            self.wf(),
        ensures
            r.wf(),
            r.commands() == self.commands().push(box_command(kind@, x as int, y as int, w as int, h as int)),
    {
        let mut c = String::from_str("{\"type\":\"");
        c.append(kind);
        c.append("\",\"x\":");
        push_decimal(&mut c, x);
        c.append(",\"y\":");
        push_decimal(&mut c, y);
        c.append(",\"w\":");
        push_decimal(&mut c, w);
        c.append(",\"h\":");
        push_decimal(&mut c, h);
        c.append("}");
        assert(c@ =~= box_command(kind@, x as int, y as int, w as int, h as int));
        let mut s = self;
        s.append(c.as_str());
        s
    }

    fn value(self, kind: &str, v: &str) -> (r: JsonCanvas)
        requires
            self.wf(),
        ensures
            r.wf(),
            r.commands() == self.commands().push(value_command(kind@, v@)),
    {
        let mut c = String::from_str("{\"type\":\"");
        c.append(kind);
        c.append("\",\"val\":");
        let q = json_quote(v);
        c.append(q.as_str());
        c.append("}");
        assert(c@ =~= value_command(kind@, v@));
        let mut s = self;
        s.append(c.as_str());
        s
    }

    fn bare(self, kind: &str) -> (r: JsonCanvas)
        requires
            self.wf(),
        ensures
            r.wf(),
            r.commands() == self.commands().push(bare_command(kind@)),
    {
        let mut c = String::from_str("{\"type\":\"");
        c.append(kind);
        c.append("\"}");
        assert(c@ =~= bare_command(kind@));
        let mut s = self;
        s.append(c.as_str());
        s
    }

    /// Moves the origin by `(x, y)`.
    pub fn translate(self, x: i64, y: i64) -> (r: JsonCanvas)
        requires
            self.wf(),
        ensures
            r.wf(),
            r.commands() == self.commands().push(point_command("translate"@, x as int, y as int)),
    {
        self.point("translate", x, y)
    }

    /// Starts a new sub-path at `(x, y)`.
    pub fn move_to(self, x: i64, y: i64) -> (r: JsonCanvas)
        requires
            self.wf(),
        ensures
            r.wf(),
            r.commands() == self.commands().push(point_command("moveTo"@, x as int, y as int)),
    {
        self.point("moveTo", x, y)
    }

    /// Adds a straight line to `(x, y)`.
    pub fn line_to(self, x: i64, y: i64) -> (r: JsonCanvas)
        requires
            self.wf(),
        ensures
            r.wf(),
            r.commands() == self.commands().push(point_command("lineTo"@, x as int, y as int)),
    {
        self.point("lineTo", x, y)
    }

    /// Draws `text` with its anchor at `(x, y)`.
    pub fn fill_text(self, text: &str, x: i64, y: i64) -> (r: JsonCanvas)
        requires
            self.wf(),
        ensures
            r.wf(),
            r.commands() == self.commands().push(text_command(text@, x as int, y as int)),
    {
        let mut c = String::from_str("{\"type\":\"fillText\",\"text\":");
        let q = json_quote(text);
        c.append(q.as_str());
        c.append(",\"x\":");
        push_decimal(&mut c, x);
        c.append(",\"y\":");
        push_decimal(&mut c, y);
        c.append("}");
        assert(c@ =~= text_command(text@, x as int, y as int));
        let mut s = self;
        s.append(c.as_str());
        s
    }

    /// Fills the box at `(x, y)` of size `(w, h)`.
    pub fn fill_rect(self, x: i64, y: i64, w: i64, h: i64) -> (r: JsonCanvas)
        requires
            self.wf(),
        ensures
            r.wf(),
            r.commands() == self.commands().push(box_command("fillRect"@, x as int, y as int, w as int, h as int)),
    {
        self.boxed("fillRect", x, y, w, h)
    }

    /// Adds the box at `(x, y)` of size `(w, h)` to the path.
    pub fn rect(self, x: i64, y: i64, w: i64, h: i64) -> (r: JsonCanvas)
        requires
            self.wf(),
        ensures
            r.wf(),
            r.commands() == self.commands().push(box_command("rect"@, x as int, y as int, w as int, h as int)),
    {
        self.boxed("rect", x, y, w, h)
    }

    /// Sets the fill style.
    pub fn fill_style(self, style: &str) -> (r: JsonCanvas)
        requires
            self.wf(),
        ensures
            r.wf(),
            r.commands() == self.commands().push(value_command("fillStyle"@, style@)),
    {
        self.value("fillStyle", style)
    }

    /// Sets the stroke style.
    pub fn stroke_style(self, style: &str) -> (r: JsonCanvas)
        requires
            self.wf(),
        ensures
            r.wf(),
            r.commands() == self.commands().push(value_command("strokeStyle"@, style@)),
    {
        self.value("strokeStyle", style)
    }

    /// Sets the horizontal text alignment.
    pub fn text_align(self, align: &str) -> (r: JsonCanvas)
        requires
            self.wf(),
        ensures
            r.wf(),
            r.commands() == self.commands().push(value_command("textAlign"@, align@)),
    {
        self.value("textAlign", align)
    }

    /// Sets the text baseline.
    pub fn text_baseline(self, baseline: &str) -> (r: JsonCanvas)
        requires
            self.wf(),
        ensures
            r.wf(),
            r.commands() == self.commands().push(value_command("textBaseline"@, baseline@)),
    {
        self.value("textBaseline", baseline)
    }

    /// Sets the font.
    pub fn font(self, font: &str) -> (r: JsonCanvas)
        requires
            self.wf(),
        ensures
            r.wf(),
            r.commands() == self.commands().push(value_command("font"@, font@)),
    {
        self.value("font", font)
    }

    /// Records a command that takes no argument: `save`, `restore`,
    /// `beginPath`, `closePath`, `fill`, `stroke` or `clip`.
    pub fn command(self, kind: &str) -> (r: JsonCanvas)
        requires
            self.wf(),
        ensures
            r.wf(),
            r.commands() == self.commands().push(bare_command(kind@)),
    {
        self.bare(kind)
    }
}

} // verus!
