//! Print jobs and the two printer backends: a USB thermal printer driven
//! by ESC/POS commands, and a terminal rendering of the receipt.
//!
//! The library decides what is printed: the ESC/POS command sequence of a
//! job, or the lines of its terminal rendering. Sending the commands to the
//! device, and writing the lines to standard output, is left to the caller.
use vstd::prelude::*;
use crate::text::{
    chars_of, string_of, strings_of, char_lines, views, str_views, subvec, append, lemma_views_push,
};

verus! {

/// Width (in characters) of the terminal receipt rendering. Also used by
/// callers to format separator lines.
pub const TERMINAL_WIDTH: usize = 48;

/// The ESC/POS error type of the `escpos` crate.
#[verifier::external_type_specification]
#[verifier::external_body]
pub struct ExEscposError(escpos::errors::PrinterError);

/// Errors that can occur during printer communication or initialization.
#[derive(Debug)]
pub enum PrinterLibError {
    CannotInitialize(String),
    Unknown,
    Escpos(escpos::errors::PrinterError),
}

/// A specialized `Result` type for printer operations.
pub type PrinterLibResult<T = ()> = Result<T, PrinterLibError>;

/// Text alignment on the printed page.
#[derive(Debug, Clone, Copy, PartialEq, Eq, Structural)]
pub enum Justify {
    Left,
    Center,
}

/// One ESC/POS operation on the printer.
#[derive(Debug, Clone)]
pub enum EscposCommand {
    Init,
    Justify(Justify),
    /// A QR code (model 1, size 6, correction level M) of the text.
    QrCode(String),
    Bold(bool),
    Write(String),
    Writeln(String),
    Feed,
    Feeds(u8),
    Size(u8, u8),
    ResetSize,
    /// A horizontal rule in the `=-` style.
    DrawLine,
    PrintCut,
}

/// A command as plain values, for contracts.
pub enum Cmd {
    Init,
    Justify(Justify),
    QrCode(Seq<char>),
    Bold(bool),
    Write(Seq<char>),
    Writeln(Seq<char>),
    Feed,
    Feeds(u8),
    Size(u8, u8),
    ResetSize,
    DrawLine,
    PrintCut,
}

/// The plain value of a command.
pub open spec fn cmd_view(c: EscposCommand) -> Cmd {
    match c {
        EscposCommand::Init => Cmd::Init,
        EscposCommand::Justify(j) => Cmd::Justify(j),
        EscposCommand::QrCode(s) => Cmd::QrCode(s@),
        EscposCommand::Bold(b) => Cmd::Bold(b),
        EscposCommand::Write(s) => Cmd::Write(s@),
        EscposCommand::Writeln(s) => Cmd::Writeln(s@),
        EscposCommand::Feed => Cmd::Feed,
        EscposCommand::Feeds(n) => Cmd::Feeds(n),
        EscposCommand::Size(w, h) => Cmd::Size(w, h),
        EscposCommand::ResetSize => Cmd::ResetSize,
        EscposCommand::DrawLine => Cmd::DrawLine,
        EscposCommand::PrintCut => Cmd::PrintCut,
    }
}

/// The plain values of a command list.
pub open spec fn cmds_view(v: Seq<EscposCommand>) -> Seq<Cmd> {
    v.map_values(|c: EscposCommand| cmd_view(c))
}

/// A job to print: where it comes from, its title, and its lines.
pub struct PrintJob {
    pub origin: String,
    pub title: String,
    pub lines: Vec<String>,
}

impl PrintJob {
    pub fn new(origin: String, title: String, lines: Vec<String>) -> (r: Self)
        ensures
            r.origin == origin,
            r.title == title,
            r.lines == lines,
    {
        PrintJob { origin, title, lines }
    }
}

/// Which printer a manager drives.
#[derive(Debug, Clone, Copy, PartialEq, Eq, Structural)]
pub enum PrinterBackend {
    /// A physical USB thermal printer, sent ESC/POS commands.
    Usb,
    /// No hardware: the job is rendered as text for standard output.
    Terminal,
}

/// What executing a job produces: the lines to write to the terminal, or
/// the ESC/POS commands to send to the USB printer.
pub enum PrintOutput {
    Terminal(Vec<String>),
    Usb(Vec<EscposCommand>),
}

/// Runs print jobs on one backend.
pub struct PrinterManager {
    backend: PrinterBackend,
}

/// The backend a configured mode selects: `"usb"` is the USB printer,
/// anything else the terminal.
pub open spec fn backend_of_mode(mode: Seq<char>) -> PrinterBackend {
    if mode == seq!['u', 's', 'b'] {
        PrinterBackend::Usb
    } else {
        PrinterBackend::Terminal
    }
}

/// The backend a configured printer mode selects: `"usb"` for a physical
/// printer; any other value is treated as `"terminal"`.
pub fn mode_backend(mode: &str) -> (r: PrinterBackend)
    ensures
        r == backend_of_mode(mode@),
{
    let m = chars_of(mode);
    let usb = vec!['u', 's', 'b'];
    assert(usb@ =~= seq!['u', 's', 'b']);
    if crate::text::eq_chars(&m, &usb) {
        PrinterBackend::Usb
    } else {
        PrinterBackend::Terminal
    }
}

// ---------------------------------------------------------------------------
// Terminal rendering
// ---------------------------------------------------------------------------

/// `n` copies of `c`.
pub open spec fn repeat(c: char, n: nat) -> Seq<char> {
    Seq::new(n, |i: int| c)
}

/// A horizontal border of the receipt box, between two corner characters.
pub open spec fn border(left: char, right: char) -> Seq<char> {
    seq![left] + repeat('\u{2550}', TERMINAL_WIDTH as nat) + seq![right]
}

/// An empty row of the receipt box.
pub open spec fn empty_row() -> Seq<char> {
    seq!['\u{2551}'] + repeat(' ', TERMINAL_WIDTH as nat) + seq!['\u{2551}']
}

/// The room for text in a row of the receipt box: its width less the
/// space before the text.
pub open spec fn text_room() -> nat {
    (TERMINAL_WIDTH - 1) as nat
}

/// A text row of the receipt box, as wide as the box: after a space, the
/// text cut to the room left and padded with spaces to fill it.
pub open spec fn padded_row(s: Seq<char>) -> Seq<char> {
    let t = s.take(if s.len() < text_room() { s.len() as int } else { text_room() as int });
    seq!['\u{2551}', ' '] + t + repeat(' ', (text_room() - t.len()) as nat) + seq!['\u{2551}']
}

/// Every text row is as wide as the borders: the box width and its two
/// sides.
pub proof fn lemma_padded_row_width(s: Seq<char>)
    ensures
        padded_row(s).len() == TERMINAL_WIDTH + 2,
        border('\u{2554}', '\u{2557}').len() == TERMINAL_WIDTH + 2,
        empty_row().len() == TERMINAL_WIDTH + 2,
{
}

/// `l` cut into pieces of `n` characters, the last one possibly shorter.
pub open spec fn chunks(l: Seq<char>, n: nat) -> Seq<Seq<char>>
    decreases l.len(),
{
    if n == 0 || l.len() <= n {
        seq![l]
    } else {
        seq![l.take(n as int)] + chunks(l.skip(n as int), n)
    }
}

/// Wrapping keeps the line whole: its pieces, put back together in order,
/// are the line itself; every piece but the last has exactly `n`
/// characters and the last at most `n`; and a non-empty line gives no empty
/// piece.
pub proof fn lemma_chunks_cover(l: Seq<char>, n: nat)
    requires
        n > 0,
    ensures
        chunks(l, n).len() >= 1,
        chunks(l, n).flatten() == l,
        forall|i: int| 0 <= i < chunks(l, n).len() - 1 ==> (#[trigger] chunks(l, n)[i]).len() == n,
        forall|i: int| 0 <= i < chunks(l, n).len() ==> (#[trigger] chunks(l, n)[i]).len() <= n,
        l.len() > 0 ==> forall|i: int| 0 <= i < chunks(l, n).len() ==> (#[trigger] chunks(l, n)[i]).len() > 0,
    decreases l.len(),
{
    let c = chunks(l, n);
    if l.len() <= n {
        assert(c == seq![l]);
        assert(c.drop_first() =~= Seq::<Seq<char>>::empty());
        assert(c.flatten() == c.first() + c.drop_first().flatten());
        assert(c.flatten() =~= l);
    } else {
        let rest = chunks(l.skip(n as int), n);
        lemma_chunks_cover(l.skip(n as int), n);
        assert(c == seq![l.take(n as int)] + rest);
        assert(c.drop_first() =~= rest);
        assert(c.flatten() == c.first() + rest.flatten());
        assert(c.flatten() =~= l);
        assert forall|i: int| 0 <= i < c.len() implies (#[trigger] c[i]).len() <= n && (i < c.len() - 1
            ==> c[i].len() == n) && c[i].len() > 0 by {
            if i > 0 {
                assert(c[i] == rest[i - 1]);
            }
        }
    }
}

/// A non-empty line prints as rows that hold its wrapped pieces in order:
/// the `i`-th row is the border, a space, the `i`-th piece and spaces up
/// to the box width, then the border; the pieces put back together are the
/// line.
pub proof fn lemma_line_rows_keep_text(l: Seq<char>)
    requires
        l.len() > 0,
    ensures
        ({
            let pieces = chunks(l, text_room());
            &&& pieces.flatten() == l
            &&& line_rows(l).len() == pieces.len()
            &&& forall|i: int|
                0 <= i < pieces.len() ==> #[trigger] line_rows(l)[i] == seq!['\u{2551}', ' '] + pieces[i] + repeat(
                    ' ',
                    (text_room() - pieces[i].len()) as nat,
                ) + seq!['\u{2551}']
        }),
{
    let pieces = chunks(l, text_room());
    lemma_chunks_cover(l, text_room());
    assert forall|i: int| 0 <= i < pieces.len() implies #[trigger] line_rows(l)[i] == seq!['\u{2551}', ' ']
        + pieces[i] + repeat(' ', (text_room() - pieces[i].len()) as nat) + seq!['\u{2551}'] by {
        assert(pieces[i].len() <= text_room());
        assert(pieces[i].take(pieces[i].len() as int) =~= pieces[i]);
    }
}

/// The rows one line of a job takes: an empty row for an empty line, else
/// the line wrapped at one less than the box width.
pub open spec fn line_rows(l: Seq<char>) -> Seq<Seq<char>> {
    if l.len() == 0 {
        seq![empty_row()]
    } else {
        chunks(l, (TERMINAL_WIDTH - 1) as nat).map_values(|c: Seq<char>| padded_row(c))
    }
}

/// The rows of all lines of a job, in order.
pub open spec fn body_rows(ls: Seq<Seq<char>>) -> Seq<Seq<char>>
    decreases ls.len(),
{
    if ls.len() == 0 {
        seq![]
    } else {
        body_rows(ls.drop_last()) + line_rows(ls.last())
    }
}

/// The terminal rendering of a job: a blank line, the top border, the
/// title and origin rows, a middle border, the rows of the lines, the
/// bottom border and a blank line.
pub open spec fn terminal_rows(title: Seq<char>, origin: Seq<char>, ls: Seq<Seq<char>>) -> Seq<Seq<char>> {
    seq![
        seq![],
        border('\u{2554}', '\u{2557}'),
        padded_row(title),
        padded_row(origin),
        border('\u{2560}', '\u{2563}'),
    ] + body_rows(ls) + seq![border('\u{255a}', '\u{255d}'), seq![]]
}

/// `n` copies of `c`.
fn repeat_exec(c: char, n: usize) -> (r: Vec<char>)
    ensures
        r@ == repeat(c, n as nat),
{
    let mut r: Vec<char> = Vec::new();
    let mut i: usize = 0;
    while i < n
        invariant
            i <= n,
            r@ == repeat(c, i as nat),
        decreases n - i,
    {
        r.push(c);
        i += 1;
        assert(r@ =~= repeat(c, i as nat));
    }
    r
}

fn border_exec(left: char, right: char) -> (r: Vec<char>)
    ensures
        r@ == border(left, right),
{
    let mut r = vec![left];
    let fill = repeat_exec('\u{2550}', TERMINAL_WIDTH);
    append(&mut r, &fill);
    r.push(right);
    assert(r@ =~= border(left, right));
    r
}

fn empty_row_exec() -> (r: Vec<char>)
    ensures
        r@ == empty_row(),
{
    let mut r = vec!['\u{2551}'];
    let fill = repeat_exec(' ', TERMINAL_WIDTH);
    append(&mut r, &fill);
    r.push('\u{2551}');
    assert(r@ =~= empty_row());
    r
}

fn padded_row_exec(s: &[char]) -> (r: Vec<char>)
    ensures
        r@ == padded_row(s@),
{
    let room = TERMINAL_WIDTH - 1;
    let k = if s.len() < room { s.len() } else { room };
    let t = subvec(s, 0, k);
    assert(t@ =~= s@.take(k as int));
    let fill_n = room - t.len();
    let fill = repeat_exec(' ', fill_n);
    let mut r = vec!['\u{2551}', ' '];
    append(&mut r, &t);
    append(&mut r, &fill);
    r.push('\u{2551}');
    assert(r@ =~= padded_row(s@));
    r
}

/// The rows of one line (see `line_rows`).
fn line_rows_exec(l: &[char]) -> (r: Vec<Vec<char>>)
    ensures
        views(r@) == line_rows(l@),
{
    if l.len() == 0 {
        let row = empty_row_exec();
        let r = vec![row];
        assert(views(r@) =~= seq![empty_row()]);
        return r;
    }
    let w: usize = TERMINAL_WIDTH - 1;
    let mut r: Vec<Vec<char>> = Vec::new();
    let mut pos: usize = 0;
    let ghost full = chunks(l@, w as nat).map_values(|c: Seq<char>| padded_row(c));
    assert(l@.skip(0) =~= l@);
    assert(views(r@) =~= Seq::<Seq<char>>::empty());
    assert(views(r@) + full =~= full);
    while l.len() - pos > w
        invariant
            pos <= l@.len(),
            w == TERMINAL_WIDTH - 1,
            full == chunks(l@, w as nat).map_values(|c: Seq<char>| padded_row(c)),
            views(r@) + chunks(l@.skip(pos as int), w as nat).map_values(|c: Seq<char>| padded_row(c)) == full,
        decreases l@.len() - pos,
    {
        let piece = subvec(l, pos, pos + w);
        let ghost rest = l@.skip(pos as int);
        assert(piece@ =~= rest.take(w as int));
        assert(rest.skip(w as int) =~= l@.skip(pos + w));
        let row = padded_row_exec(&piece);
        let ghost prev = views(r@);
        r.push(row);
        assert(views(r@) =~= prev.push(padded_row(rest.take(w as int))));
        let ghost tail = chunks(l@.skip(pos + w), w as nat).map_values(|c: Seq<char>| padded_row(c));
        assert(chunks(rest, w as nat) == seq![rest.take(w as int)] + chunks(rest.skip(w as int), w as nat));
        assert(chunks(rest, w as nat).map_values(|c: Seq<char>| padded_row(c)) =~= seq![
            padded_row(rest.take(w as int)),
        ] + tail);
        assert(views(r@) + tail =~= prev + (seq![padded_row(rest.take(w as int))] + tail));
        pos = pos + w;
    }
    let ghost rest = l@.skip(pos as int);
    let last = subvec(l, pos, l.len());
    assert(last@ =~= rest);
    let row = padded_row_exec(&last);
    let ghost prev = views(r@);
    r.push(row);
    assert(chunks(rest, w as nat) == seq![rest]);
    assert(chunks(rest, w as nat).map_values(|c: Seq<char>| padded_row(c)) =~= seq![padded_row(rest)]);
    assert(views(r@) =~= prev + seq![padded_row(rest)]);
    assert(l@.skip(0) =~= l@);
    r
}

/// The terminal rendering of a job (see `terminal_rows`).
#[verifier::rlimit(30)]
fn terminal_rows_exec(title: &[char], origin: &[char], ls: &Vec<Vec<char>>) -> (r: Vec<Vec<char>>)
    ensures
        views(r@) == terminal_rows(title@, origin@, views(ls@)),
{
    let mut r: Vec<Vec<char>> = Vec::new();
    r.push(Vec::new());
    r.push(border_exec('\u{2554}', '\u{2557}'));
    r.push(padded_row_exec(title));
    r.push(padded_row_exec(origin));
    r.push(border_exec('\u{2560}', '\u{2563}'));
    let ghost head = views(r@);
    assert(head =~= seq![
        Seq::<char>::empty(),
        border('\u{2554}', '\u{2557}'),
        padded_row(title@),
        padded_row(origin@),
        border('\u{2560}', '\u{2563}'),
    ]);
    let mut i: usize = 0;
    while i < ls.len()
        invariant
            i <= ls@.len(),
            views(r@) == head + body_rows(views(ls@).take(i as int)),
        decreases ls@.len() - i,
    {
        let rows = line_rows_exec(&ls[i]);
        let ghost before = views(r@);
        let mut j: usize = 0;
        while j < rows.len()
            invariant
                j <= rows@.len(),
                views(r@) == before + views(rows@).take(j as int),
            decreases rows@.len() - j,
        {
            let ghost b = r@;
            let row = crate::text::copy_of(&rows[j]);
            r.push(row);
            proof {
                lemma_views_push(b, row);
            }
            j += 1;
            assert(views(r@) =~= before + views(rows@).take(j as int));
        }
        let ghost pre = views(ls@).take(i as int);
        i += 1;
        let ghost post = views(ls@).take(i as int);
        assert(post.drop_last() =~= pre);
        assert(post.last() == ls@[i - 1]@);
        assert(views(rows@).take(rows@.len() as int) =~= views(rows@));
        assert(views(r@) =~= head + body_rows(post));
    }
    assert(views(ls@).take(ls@.len() as int) =~= views(ls@));
    let ghost mid = views(r@);
    r.push(border_exec('\u{255a}', '\u{255d}'));
    r.push(Vec::new());
    assert(views(r@) =~= mid + seq![border('\u{255a}', '\u{255d}'), Seq::<char>::empty()]);
    r
}

// ---------------------------------------------------------------------------
// The manager
// ---------------------------------------------------------------------------

/// The ESC/POS commands of a job on the USB printer: a feed, the title in
/// double size, a feed, the origin in normal size, a feed, a rule, each
/// line, two feeds and a cut.
pub open spec fn usb_job_cmds(title: Seq<char>, origin: Seq<char>, ls: Seq<Seq<char>>) -> Seq<Cmd> {
    seq![
        Cmd::Feeds(1),
        Cmd::Size(2, 2),
        Cmd::Writeln(title),
        Cmd::Feeds(1),
        Cmd::Size(1, 1),
        Cmd::Writeln(origin),
        Cmd::Feeds(1),
        Cmd::DrawLine,
    ] + ls.map_values(|l: Seq<char>| Cmd::Writeln(l)) + seq![Cmd::Feeds(2), Cmd::PrintCut]
}

impl PrinterManager {
    /// The manager of the terminal backend.
    pub fn init_terminal() -> (r: Self)
        ensures
            r.backend() == PrinterBackend::Terminal,
    {
        PrinterManager { backend: PrinterBackend::Terminal }
    }

    /// The manager of a USB printer; the caller opens the device and sends
    /// it the commands `execute_job` produces.
    pub fn init_usb() -> (r: Self)
        ensures
            r.backend() == PrinterBackend::Usb,
    {
        PrinterManager { backend: PrinterBackend::Usb }
    }

    pub closed spec fn backend(self) -> PrinterBackend {
        self.backend
    }

    /// The ESC/POS commands that print `job` on the USB printer.
    #[verifier::rlimit(30)]
    pub fn execute_usb(job: &PrintJob) -> (r: Vec<EscposCommand>)
        ensures
            cmds_view(r@) == usb_job_cmds(job.title@, job.origin@, str_views(job.lines@)),
    {
        let mut r: Vec<EscposCommand> = Vec::new();
        r.push(EscposCommand::Feeds(1));
        r.push(EscposCommand::Size(2, 2));
        r.push(EscposCommand::Writeln(string_of(&chars_of(job.title.as_str()))));
        r.push(EscposCommand::Feeds(1));
        r.push(EscposCommand::Size(1, 1));
        r.push(EscposCommand::Writeln(string_of(&chars_of(job.origin.as_str()))));
        r.push(EscposCommand::Feeds(1));
        r.push(EscposCommand::DrawLine);
        let ghost head = cmds_view(r@);
        let ghost lv = str_views(job.lines@);
        let mut i: usize = 0;
        while i < job.lines.len()
            invariant
                i <= job.lines@.len(),
                lv == str_views(job.lines@),
                cmds_view(r@) == head + lv.take(i as int).map_values(|l: Seq<char>| Cmd::Writeln(l)),
            decreases job.lines@.len() - i,
        {
            let line = string_of(&chars_of(job.lines[i].as_str()));
            let ghost b = r@;
            r.push(EscposCommand::Writeln(line));
            assert(cmds_view(r@) =~= cmds_view(b).push(Cmd::Writeln(line@)));
            i += 1;
            assert(cmds_view(r@) =~= head + lv.take(i as int).map_values(|l: Seq<char>| Cmd::Writeln(l)));
        }
        assert(lv.take(job.lines@.len() as int) =~= lv);
        let ghost mid = cmds_view(r@);
        r.push(EscposCommand::Feeds(2));
        r.push(EscposCommand::PrintCut);
        assert(cmds_view(r@) =~= mid + seq![Cmd::Feeds(2), Cmd::PrintCut]);
        r
    }

    /// The lines of the terminal rendering of `job`: the title and origin
    /// in a box, then each line, wrapped at one less than the box width.
    pub fn execute_terminal(job: &PrintJob) -> (r: Vec<String>)
        ensures
            str_views(r@) == terminal_rows(job.title@, job.origin@, str_views(job.lines@)),
    {
        let t = chars_of(job.title.as_str());
        let o = chars_of(job.origin.as_str());
        let ls = char_lines(&job.lines);
        let rows = terminal_rows_exec(&t, &o, &ls);
        strings_of(&rows)
    }

    /// Executes a job on this manager's backend: the terminal rendering of
    /// the job, or the ESC/POS commands for the USB printer.
    pub fn execute_job(&self, job: PrintJob) -> (r: PrinterLibResult<PrintOutput>)
        ensures
            match r {
                Ok(PrintOutput::Terminal(rows)) => self.backend() == PrinterBackend::Terminal
                    && str_views(rows@) == terminal_rows(job.title@, job.origin@, str_views(job.lines@)),
                Ok(PrintOutput::Usb(cmds)) => self.backend() == PrinterBackend::Usb
                    && cmds_view(cmds@) == usb_job_cmds(job.title@, job.origin@, str_views(job.lines@)),
                Err(_) => false,
            },
    {
        match self.backend {
            PrinterBackend::Usb => Ok(PrintOutput::Usb(Self::execute_usb(&job))),
            PrinterBackend::Terminal => Ok(PrintOutput::Terminal(Self::execute_terminal(&job))),
        }
    }
}

} // verus!
