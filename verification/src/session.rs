//! A session: a shell, the screen that it draws on, and what it has written lately.
use crate::emulator::{
    at_least_one, blank_screen, clamp_one, fresh_parser, is_fresh, parser_size, screen, screen_size,
    set_parser_size,
    ScreenView,
};
use crate::osc7::{
    extract_osc7, law_sequence_stripped_and_read, lemma_from_slash, payload_path, reported, scan,
    sequence,
};
use crate::paths::{
    home_dir, home_or_tmp, join, joined, law_joined_by_one_slash, opt_path, system_home,
};
use crate::text::{
    copy_opt, decimal, law_decimal_is_read_back, lossy_form, lossy_text, opt_text, texts, to_decimal,
};
use vstd::prelude::*;
use vstd::utf8::*;

verus! {

/// How many bytes of output a session keeps.
pub const BUFFER_LIMIT: usize = 65536;

/// A session, without the shell itself.
pub struct Session {
    pub id: usize,
    pub name: String,
    pub parser: vt100::Parser,
    pub cwd: Option<String>,
    /// The last output, [`BUFFER_LIMIT`] bytes of it at most.
    pub output_buf: Vec<u8>,
    /// The channels that get the output.
    pub subscribers: Vec<u64>,
    /// The channels that get the changes of the working directory.
    pub cwd_subscribers: Vec<u64>,
}

/// The value of a [`Session`].
#[verifier::ext_equal]
pub struct SessionView {
    pub id: usize,
    pub name: Seq<char>,
    pub screen: ScreenView,
    pub cwd: Option<Seq<char>>,
    pub buffer: Seq<u8>,
    pub subscribers: Seq<u64>,
    pub cwd_subscribers: Seq<u64>,
}

impl View for Session {
    type V = SessionView;

    open spec fn view(&self) -> SessionView {
        SessionView {
            id: self.id,
            name: self.name@,
            screen: screen(self.parser),
            cwd: opt_text(self.cwd),
            buffer: self.output_buf@,
            subscribers: self.subscribers@,
            cwd_subscribers: self.cwd_subscribers@,
        }
    }
}

/// The last `n` elements of `s`, or all of them where there are no more.
pub open spec fn last_of(s: Seq<u8>, n: int) -> Seq<u8> {
    if s.len() <= n {
        s
    } else {
        s.skip(s.len() - n)
    }
}

/// `list` without the elements at which `alive` is false.
pub open spec fn still_alive(list: Seq<u64>, alive: Seq<bool>) -> Seq<u64>
    decreases list.len(),
{
    if list.len() == 0 {
        Seq::empty()
    } else {
        let rest = still_alive(list.drop_last(), alive);
        if alive[list.len() - 1] {
            rest.push(list.last())
        } else {
            rest
        }
    }
}

impl SessionView {
    /// The session's screen can be drawn, and its buffer is no longer than it may be.
    pub open spec fn ok(self) -> bool {
        self.screen.ok() && self.buffer.len() <= BUFFER_LIMIT
    }

    /// A session just made.
    pub open spec fn new(id: usize, name: Seq<char>, cols: u16, rows: u16) -> SessionView {
        SessionView {
            id,
            name,
            screen: blank_screen(at_least_one(rows), at_least_one(cols)),
            cwd: None,
            buffer: Seq::empty(),
            subscribers: Seq::empty(),
            cwd_subscribers: Seq::empty(),
        }
    }

    /// The session's screen does not have the given size.
    pub open spec fn size_differs(self, cols: u16, rows: u16) -> bool {
        self.screen.rows != at_least_one(rows) || self.screen.cols != at_least_one(cols)
    }

    /// The session once its screen has the given size. Where it had another, screen and buffer
    /// are wiped.
    pub open spec fn reset_to(self, cols: u16, rows: u16) -> SessionView {
        if self.size_differs(cols, rows) {
            SessionView {
                screen: blank_screen(at_least_one(rows), at_least_one(cols)),
                buffer: Seq::empty(),
                ..self
            }
        } else {
            self
        }
    }

    /// The session once its screen, with what stands on it, has the given size.
    pub open spec fn resized(self, cols: u16, rows: u16) -> SessionView {
        SessionView { screen: self.screen.resized(at_least_one(rows), at_least_one(cols)), ..self }
    }

    /// The session after the shell wrote `raw`: the last directory that it reports is the
    /// session's, and the rest of the output goes to the end of the buffer.
    pub open spec fn after_output(self, raw: Seq<u8>) -> SessionView {
        let (cwds, clean) = scan(raw, 0);
        SessionView {
            cwd: if cwds.len() > 0 {
                Some(cwds.last())
            } else {
                self.cwd
            },
            buffer: last_of(self.buffer + clean, BUFFER_LIMIT as int),
            ..self
        }
    }
}

impl SessionView {
    /// The session once it is known which deliveries reached a receiver: channels without one are
    /// forgotten. Deliveries of a directory are among them only where one was reported.
    pub open spec fn settled(self, reached: Seq<bool>) -> SessionView {
        let told = reached.len() == self.cwd_subscribers.len() + 1 + self.subscribers.len();
        SessionView {
            subscribers: still_alive(
                self.subscribers,
                reached.skip(reached.len() - self.subscribers.len()),
            ),
            cwd_subscribers: if told {
                still_alive(self.cwd_subscribers, reached)
            } else {
                self.cwd_subscribers
            },
            ..self
        }
    }
}

/// Something to be done with output of a session's shell.
#[derive(Debug, PartialEq, Eq)]
pub enum Delivery {
    /// Send the new working directory by this channel.
    Cwd { channel: u64, cwd: String },
    /// Give this to the session's emulator.
    Feed { data: Vec<u8> },
    /// Send this by this channel.
    Output { channel: u64, data: Vec<u8> },
}

/// The value of a [`Delivery`].
#[verifier::ext_equal]
pub enum DeliveryView {
    Cwd { channel: u64, cwd: Seq<char> },
    Feed { data: Seq<u8> },
    Output { channel: u64, data: Seq<u8> },
}

impl View for Delivery {
    type V = DeliveryView;

    open spec fn view(&self) -> DeliveryView {
        match *self {
            Delivery::Cwd { channel, cwd } => DeliveryView::Cwd { channel, cwd: cwd@ },
            Delivery::Feed { data } => DeliveryView::Feed { data: data@ },
            Delivery::Output { channel, data } => DeliveryView::Output { channel, data: data@ },
        }
    }
}

/// The values of a list of deliveries.
pub open spec fn delivery_views(v: Seq<Delivery>) -> Seq<DeliveryView> {
    v.map_values(|d: Delivery| d@)
}

/// A working directory, by each of some channels.
pub open spec fn cwd_deliveries(list: Seq<u64>, cwd: Seq<char>) -> Seq<DeliveryView> {
    list.map_values(|channel: u64| DeliveryView::Cwd { channel, cwd })
}

/// Output, by each of some channels.
pub open spec fn output_deliveries(list: Seq<u64>, data: Seq<u8>) -> Seq<DeliveryView> {
    list.map_values(|channel: u64| DeliveryView::Output { channel, data })
}

/// What is to be done when the shell of session `s` has written `raw`: the last directory that it
/// reports goes to those who asked for it, the rest of the output to the emulator, and then to
/// those who asked for it.
pub open spec fn deliveries(s: SessionView, raw: Seq<u8>) -> Seq<DeliveryView> {
    let (cwds, clean) = scan(raw, 0);
    let told = if cwds.len() > 0 {
        cwd_deliveries(s.cwd_subscribers, cwds.last())
    } else {
        Seq::empty()
    };
    told + seq![DeliveryView::Feed { data: clean }] + output_deliveries(s.subscribers, clean)
}

/// The list of deliveries has the values `v` with one more at its end.
proof fn lemma_delivery_pushed(v: Seq<Delivery>, d: Delivery)
    ensures
        delivery_views(v.push(d)) == delivery_views(v).push(d@),
{
    assert(delivery_views(v.push(d)) =~= delivery_views(v).push(d@));
}

/// Keeps the channels that still have a receiver, where `alive` says so from `from` on.
fn keep_alive(list: &mut Vec<u64>, alive: &Vec<bool>, from: usize)
    requires
        from + old(list)@.len() <= alive@.len(),
    ensures
        final(list)@ == still_alive(old(list)@, alive@.skip(from as int)),
{
    let mut kept: Vec<u64> = Vec::new();
    let total: usize = alive.len();
    let ghost all = list@;
    let ghost flags = alive@.skip(from as int);
    let mut i: usize = 0;
    assert(still_alive(all.take(0), flags) =~= kept@);
    while i < list.len()
        invariant
            i <= list@.len(),
            from + list@.len() <= total == alive@.len(),
            list@ == all,
            flags == alive@.skip(from as int),
            kept@ == still_alive(all.take(i as int), flags),
        decreases list@.len() - i,
    {
        assert(all.take(i + 1).drop_last() =~= all.take(i as int));
        assert(all.take(i + 1).last() == all[i as int]);
        assert(flags[i as int] == alive@[from + i]);
        if alive[from + i] {
            kept.push(list[i]);
        }
        i += 1;
    }
    assert(all.take(i as int) =~= all);
    *list = kept;
}

impl Session {
    /// A session whose screen has the given size, of one row and one column at least.
    pub fn new(id: usize, name: String, cols: u16, rows: u16) -> (s: Session)
        ensures
            s@ == SessionView::new(id, name@, cols, rows),
            s@.ok(),
            is_fresh(s.parser),
    {
        let s = Session {
            id,
            name,
            parser: fresh_parser(cols, rows),
            cwd: None,
            output_buf: Vec::new(),
            subscribers: Vec::new(),
            cwd_subscribers: Vec::new(),
        };
        assert(s@ =~= SessionView::new(id, name@, cols, rows));
        s
    }

    /// Gives the screen the size of a client that attaches. Returns whether it had another, and
    /// was wiped.
    pub fn resize_and_reset(&mut self, cols: u16, rows: u16) -> (changed: bool)
        ensures
            changed == old(self)@.size_differs(cols, rows),
            final(self)@ == old(self)@.reset_to(cols, rows),
            old(self)@.ok() ==> final(self)@.ok(),
            changed ==> is_fresh(final(self).parser),
            !changed ==> final(self).parser == old(self).parser,
            changed <==> screen_size(old(self).parser) != (
                if rows == 0 {
                    1u16
                } else {
                    rows
                },
                if cols == 0 {
                    1u16
                } else {
                    cols
                },
            ),
            !changed ==> final(self).output_buf@ == old(self).output_buf@,
            changed ==> final(self).output_buf@.len() == 0,
    {
        let (c, r) = (clamp_one(cols), clamp_one(rows));
        let (old_rows, old_cols) = parser_size(&self.parser);
        let changed = c != old_cols || r != old_rows;
        if changed {
            self.parser = fresh_parser(c, r);
            self.output_buf.clear();
        }
        assert(self@ =~= old(self)@.reset_to(cols, rows));
        changed
    }

    /// Gives the screen, with what stands on it, another size.
    pub fn resize(&mut self, cols: u16, rows: u16)
        requires
            old(self)@.ok(),
        ensures
            final(self)@ == old(self)@.resized(cols, rows),
            final(self)@.ok(),
    {
        set_parser_size(&mut self.parser, clamp_one(rows), clamp_one(cols));
        assert(self@ =~= old(self)@.resized(cols, rows));
    }

    /// Adds a channel that gets the output.
    pub fn subscribe(&mut self, channel: u64)
        ensures
            final(self)@ == (SessionView {
                subscribers: old(self)@.subscribers.push(channel),
                ..old(self)@
            }),
            final(self).parser == old(self).parser,
    {
        self.subscribers.push(channel);
    }

    /// Adds a channel that gets the changes of the working directory.
    pub fn subscribe_cwd(&mut self, channel: u64)
        ensures
            final(self)@ == (SessionView {
                cwd_subscribers: old(self)@.cwd_subscribers.push(channel),
                ..old(self)@
            }),
            final(self).parser == old(self).parser,
    {
        self.cwd_subscribers.push(channel);
    }

    /// The last output.
    pub fn buffered_output(&self) -> (r: Vec<u8>)
        ensures
            r@ == self@.buffer,
    {
        vstd::slice::slice_to_vec(self.output_buf.as_slice())
    }

    /// The working directory, where it is known.
    pub fn current_cwd(&self) -> (r: Option<String>)
        ensures
            opt_text(r) == self@.cwd,
    {
        copy_opt(&self.cwd)
    }

    /// Takes in what the shell wrote. Returns what is to be done with it, in this order.
    pub fn ingest(&mut self, raw: &[u8]) -> (r: Vec<Delivery>)
        requires
            old(self)@.ok(),
        ensures
            delivery_views(r@) == deliveries(old(self)@, raw@),
            final(self)@ == old(self)@.after_output(raw@),
            final(self)@.ok(),
            final(self).parser == old(self).parser,
    {
        let (mut cwds, clean) = extract_osc7(raw);
        let ghost names = texts(cwds@);
        let cwd = cwds.pop();
        let mut r: Vec<Delivery> = Vec::new();
        let ghost told = if names.len() > 0 {
            cwd_deliveries(self@.cwd_subscribers, names.last())
        } else {
            Seq::empty()
        };
        if let Some(dir) = &cwd {
            assert(names.last() == dir@);
            self.tell_cwd(dir, &mut r);
            self.cwd = Some(dir.clone());
        }
        assert(delivery_views(r@) =~= told);
        let fed = vstd::slice::slice_to_vec(clean.as_slice());
        let ghost before = r@;
        r.push(Delivery::Feed { data: fed });
        proof {
            lemma_delivery_pushed(before, Delivery::Feed { data: fed });
        }
        self.tell_output(&clean, &mut r);
        assert(delivery_views(r@) =~= deliveries(old(self)@, raw@));
        let ghost whole = self.output_buf@ + clean@;
        self.output_buf.extend_from_slice(clean.as_slice());
        assert(self.output_buf@ =~= whole);
        if self.output_buf.len() > BUFFER_LIMIT {
            let drop: usize = self.output_buf.len() - BUFFER_LIMIT;
            let tail = self.output_buf.split_off(drop);
            assert(tail@ =~= last_of(whole, BUFFER_LIMIT as int));
            self.output_buf = tail;
        }
        assert(self@ =~= old(self)@.after_output(raw@));
        r
    }

    fn tell_cwd(&self, cwd: &String, r: &mut Vec<Delivery>)
        ensures
            delivery_views(final(r)@) == delivery_views(old(r)@) + cwd_deliveries(
                self@.cwd_subscribers,
                cwd@,
            ),
    {
        let ghost all = cwd_deliveries(self@.cwd_subscribers, cwd@);
        let mut i: usize = 0;
        assert(delivery_views(r@) =~= delivery_views(old(r)@) + all.take(0));
        while i < self.cwd_subscribers.len()
            invariant
                i <= self.cwd_subscribers@.len(),
                all == cwd_deliveries(self@.cwd_subscribers, cwd@),
                delivery_views(r@) == delivery_views(old(r)@) + all.take(i as int),
            decreases self.cwd_subscribers@.len() - i,
        {
            let d = Delivery::Cwd { channel: self.cwd_subscribers[i], cwd: cwd.clone() };
            proof {
                lemma_delivery_pushed(r@, d);
                assert(all.take(i + 1) =~= all.take(i as int).push(d@));
            }
            r.push(d);
            i += 1;
            assert(delivery_views(r@) =~= delivery_views(old(r)@) + all.take(i as int));
        }
        assert(all.take(i as int) =~= all);
    }

    fn tell_output(&self, data: &Vec<u8>, r: &mut Vec<Delivery>)
        ensures
            delivery_views(final(r)@) == delivery_views(old(r)@) + output_deliveries(
                self@.subscribers,
                data@,
            ),
    {
        let ghost all = output_deliveries(self@.subscribers, data@);
        let mut i: usize = 0;
        assert(delivery_views(r@) =~= delivery_views(old(r)@) + all.take(0));
        while i < self.subscribers.len()
            invariant
                i <= self.subscribers@.len(),
                all == output_deliveries(self@.subscribers, data@),
                delivery_views(r@) == delivery_views(old(r)@) + all.take(i as int),
            decreases self.subscribers@.len() - i,
        {
            let copy = vstd::slice::slice_to_vec(data.as_slice());
            let d = Delivery::Output { channel: self.subscribers[i], data: copy };
            proof {
                lemma_delivery_pushed(r@, d);
                assert(all.take(i + 1) =~= all.take(i as int).push(d@));
            }
            r.push(d);
            i += 1;
            assert(delivery_views(r@) =~= delivery_views(old(r)@) + all.take(i as int));
        }
        assert(all.take(i as int) =~= all);
    }

    /// Forgets the channels that have no receiver any more. `reached` says of each delivery of
    /// [`Session::ingest`] whether there was one.
    pub fn settle(&mut self, reached: &Vec<bool>)
        requires
            reached@.len() == 1 + old(self)@.subscribers.len() || reached@.len()
                == old(self)@.cwd_subscribers.len() + 1 + old(self)@.subscribers.len(),
        ensures
            final(self)@ == old(self)@.settled(reached@),
            final(self).parser == old(self).parser,
    {
        let from: usize = reached.len() - self.subscribers.len();
        if from - 1 == self.cwd_subscribers.len() {
            keep_alive(&mut self.cwd_subscribers, reached, 0);
            assert(reached@.skip(0) =~= reached@);
        }
        keep_alive(&mut self.subscribers, reached, from);
        assert(self@ =~= old(self)@.settled(reached@));
    }
}

/// How a session's shell is started.
#[derive(Debug, PartialEq, Eq)]
pub struct ShellPlan {
    pub program: String,
    /// The value of `TERM`.
    pub term: String,
    pub rows: u16,
    pub cols: u16,
    /// The directory that stands in for the user's `ZDOTDIR`.
    pub zdotdir: Vec<u8>,
    /// The start-up file in it, and what it holds.
    pub zshrc_path: Vec<u8>,
    pub zshrc: String,
    /// What is typed into the shell first.
    pub input: Vec<u8>,
}

/// A start-up file that has the shell report its directory before each prompt, and then reads the
/// user's own start-up file `user_file`.
pub open spec fn zshrc_of(user_file: Seq<char>) -> Seq<char> {
    "# mbulet session bootstrap\n"@ + hook_line() + "precmd_functions+=(__mbulet_precmd)\n"@
        + "[[ -f "@ + user_file + " ]] && source "@ + user_file + "\nPROMPT_SP=\"\"\n"@
}

/// The line that defines the report.
pub open spec fn hook_line() -> Seq<char> {
    "__mbulet_precmd() { printf '\\e]7;file://%s%s\\a' \"$(hostname -s)\" \"$PWD\"; }\n"@
}

/// What commands come to when they are typed, each with a line feed behind it.
pub open spec fn typed(cmds: Seq<Seq<char>>) -> Seq<u8>
    decreases cmds.len(),
{
    if cmds.len() == 0 {
        Seq::empty()
    } else {
        typed(cmds.drop_last()) + encode_utf8(cmds.last()) + encode_utf8("\n"@)
    }
}

/// The start-up directory of session `id` under `temp`.
pub open spec fn zdotdir_of(temp: Seq<u8>, id: usize) -> Seq<u8> {
    joined(temp, encode_utf8("mbulet-zdotdir-"@ + decimal(id as nat)))
}

/// The start-up file of the user whose home directory is `home`, as text.
pub open spec fn user_zshrc_of(home: Option<Seq<u8>>) -> Seq<u8> {
    joined(home_or_tmp(home), encode_utf8(".zshrc"@))
}

fn zshrc_text(user_file: &str) -> (r: String)
    ensures
        r@ == zshrc_of(user_file@),
{
    let mut r = "# mbulet session bootstrap\n".to_string();
    r.push_str("__mbulet_precmd() { printf '\\e]7;file://%s%s\\a' \"$(hostname -s)\" \"$PWD\"; }\n");
    r.push_str("precmd_functions+=(__mbulet_precmd)\n");
    r.push_str("[[ -f ");
    r.push_str(user_file);
    r.push_str(" ]] && source ");
    r.push_str(user_file);
    r.push_str("\nPROMPT_SP=\"\"\n");
    r
}

fn typed_bytes(cmds: &Vec<String>) -> (r: Vec<u8>)
    ensures
        r@ == typed(texts(cmds@)),
{
    let mut r: Vec<u8> = Vec::new();
    let mut i: usize = 0;
    let ghost all = texts(cmds@);
    assert(typed(all.take(0)) =~= r@);
    while i < cmds.len()
        invariant
            i <= cmds@.len(),
            all == texts(cmds@),
            r@ == typed(all.take(i as int)),
        decreases cmds@.len() - i,
    {
        assert(all.take(i + 1).drop_last() =~= all.take(i as int));
        assert(all.take(i + 1).last() == cmds@[i as int]@);
        let ghost before = r@;
        r.extend_from_slice(cmds[i].as_str().as_bytes());
        assert(r@ =~= before + encode_utf8(cmds@[i as int]@));
        r.extend_from_slice("\n".as_bytes());
        assert(r@ =~= before + encode_utf8(cmds@[i as int]@) + encode_utf8("\n"@));
        i += 1;
    }
    assert(all.take(i as int) =~= all);
    r
}

/// The plan is that of session `id`, of the given size and with the given commands, where
/// temporary files stand under `temp`.
pub open spec fn plan_ok(
    p: ShellPlan,
    id: usize,
    cols: u16,
    rows: u16,
    cmds: Seq<Seq<char>>,
    temp: Seq<u8>,
    home: Option<Seq<u8>>,
) -> bool {
    let user_file = user_zshrc_of(home);
    &&& p.program@ == "zsh"@
    &&& p.term@ == "xterm-256color"@
    &&& p.rows == at_least_one(rows)
    &&& p.cols == at_least_one(cols)
    &&& p.zdotdir@ == zdotdir_of(temp, id)
    &&& p.zshrc_path@ == joined(zdotdir_of(temp, id), encode_utf8(".zshrc"@))
    &&& p.zshrc@ == zshrc_of(lossy_form(user_file))
    &&& valid_utf8(user_file) ==> p.zshrc@ == zshrc_of(decode_utf8(user_file))
    &&& p.input@ == typed(cmds)
}

/// Plans the shell of session `id`, given the directory for temporary files and the user's home
/// directory.
pub fn shell_plan_in(
    id: usize,
    cols: u16,
    rows: u16,
    startup_cmds: &Vec<String>,
    temp: Vec<u8>,
    home: Option<Vec<u8>>,
) -> (r: ShellPlan)
    ensures
        plan_ok(r, id, cols, rows, texts(startup_cmds@), temp@, opt_path(home)),
{
    let mut dir_name = "mbulet-zdotdir-".to_string();
    let number = to_decimal(id as u128);
    dir_name.push_str(number.as_str());
    let zdotdir = join(temp, dir_name.as_str().as_bytes());
    let user_file = join(home_dir(home), ".zshrc".as_bytes());
    let user_text = lossy_text(user_file.as_slice());
    let zshrc_path = join(
        vstd::slice::slice_to_vec(zdotdir.as_slice()),
        ".zshrc".as_bytes(),
    );
    ShellPlan {
        program: "zsh".to_string(),
        term: "xterm-256color".to_string(),
        rows: clamp_one(rows),
        cols: clamp_one(cols),
        zdotdir,
        zshrc_path,
        zshrc: zshrc_text(user_text.as_str()),
        input: typed_bytes(startup_cmds),
    }
}

/// Plans the shell of session `id`, given the directory for temporary files, for the user whose
/// home directory the system knows.
pub fn shell_plan(
    id: usize,
    cols: u16,
    rows: u16,
    startup_cmds: &Vec<String>,
    temp: Vec<u8>,
) -> (r: ShellPlan)
    ensures
        exists|home: Option<Seq<u8>>| #[trigger]
            plan_ok(r, id, cols, rows, texts(startup_cmds@), temp@, home),
{
    let home = system_home();
    let ghost h = opt_path(home);
    let r = shell_plan_in(id, cols, rows, startup_cmds, temp, home);
    assert(plan_ok(r, id, cols, rows, texts(startup_cmds@), temp@, h));
    r
}

/// Keeping the last `n` of a kept tail and something new is keeping the last `n` of it all.
proof fn lemma_last_of_last_of(a: Seq<u8>, b: Seq<u8>, n: int)
    requires
        n >= 0,
    ensures
        last_of(last_of(a, n) + b, n) == last_of(a + b, n),
{
    assert(last_of(last_of(a, n) + b, n) =~= last_of(a + b, n));
}

/// A session after the shell wrote each of `outputs`, one after the other.
pub open spec fn after_outputs(s: SessionView, outputs: Seq<Seq<u8>>) -> SessionView
    decreases outputs.len(),
{
    if outputs.len() == 0 {
        s
    } else {
        after_outputs(s, outputs.drop_last()).after_output(outputs.last())
    }
}

/// All of `outputs` without OSC 7 sequences, one after the other.
pub open spec fn clean_of(outputs: Seq<Seq<u8>>) -> Seq<u8>
    decreases outputs.len(),
{
    if outputs.len() == 0 {
        Seq::empty()
    } else {
        clean_of(outputs.drop_last()) + scan(outputs.last(), 0).1
    }
}

/// The buffer holds the end of all that the shell has written since the buffer was emptied: all
/// of it, or the last [`BUFFER_LIMIT`] bytes.
pub proof fn law_buffer_holds_last_output(s: SessionView, outputs: Seq<Seq<u8>>)
    requires
        s.buffer.len() == 0,
    ensures
        after_outputs(s, outputs).buffer == last_of(clean_of(outputs), BUFFER_LIMIT as int),
    decreases outputs.len(),
{
    if outputs.len() > 0 {
        law_buffer_holds_last_output(s, outputs.drop_last());
        lemma_last_of_last_of(
            clean_of(outputs.drop_last()),
            scan(outputs.last(), 0).1,
            BUFFER_LIMIT as int,
        );
    }
}

/// What the shell writes is never given to the emulator or sent with a report of a directory in
/// it: the emulator gets the cleaned output once, then each who asked for output gets it once, in
/// the order in which they asked. The last directory reported, if there is one, goes once to each
/// who asked for it, and is the session's. The buffer stays within its limit. Afterwards those are
/// still listed whom it reached, and no others.
pub proof fn law_output_reaches_each_once(s: SessionView, raw: Seq<u8>, reached: Seq<bool>)
    requires
        s.ok(),
        reached.len() == deliveries(s, raw).len(),
    ensures
        ({
            let (cwds, clean) = scan(raw, 0);
            let d = deliveries(s, raw);
            let t = s.after_output(raw);
            let n = if cwds.len() > 0 {
                s.cwd_subscribers.len()
            } else {
                0
            };
            &&& d.len() == n + 1 + s.subscribers.len()
            &&& forall|i: int|
                0 <= i < n ==> (#[trigger] d[i]) == (DeliveryView::Cwd {
                    channel: s.cwd_subscribers[i],
                    cwd: cwds.last(),
                })
            &&& d[n as int] == (DeliveryView::Feed { data: clean })
            &&& forall|i: int|
                n < i < d.len() ==> (#[trigger] d[i]) == (DeliveryView::Output {
                    channel: s.subscribers[i - n - 1],
                    data: clean,
                })
            &&& t.buffer == last_of(s.buffer + clean, BUFFER_LIMIT as int)
            &&& t.buffer.len() <= BUFFER_LIMIT
            &&& t.cwd == if cwds.len() > 0 {
                Some(cwds.last())
            } else {
                s.cwd
            }
            &&& t.settled(reached).subscribers == still_alive(
                s.subscribers,
                reached.skip(n as int + 1),
            )
            &&& t.settled(reached).cwd_subscribers == if cwds.len() > 0 {
                still_alive(s.cwd_subscribers, reached)
            } else {
                s.cwd_subscribers
            }
            &&& t.settled(reached).screen == s.screen
        }),
{
    let (cwds, clean) = scan(raw, 0);
    if cwds.len() == 0 && s.cwd_subscribers.len() == 0 {
        assert(still_alive(s.cwd_subscribers, reached) =~= s.cwd_subscribers);
    }
}

/// A client that attaches a second time with the same size finds the session as it is.
pub proof fn law_second_reset_keeps_session(s: SessionView, cols: u16, rows: u16)
    ensures
        s.reset_to(cols, rows).screen.rows == at_least_one(rows),
        s.reset_to(cols, rows).screen.cols == at_least_one(cols),
        s.reset_to(cols, rows).reset_to(cols, rows) == s.reset_to(cols, rows),
{
}

/// What the hook of the start-up file prints on a machine `host` in the directory `pwd`.
pub open spec fn hook_output(host: Seq<char>, pwd: Seq<char>) -> Seq<u8> {
    sequence(encode_utf8("file://"@ + host + pwd), seq![0x07u8])
}

/// The text `s` has neither of the characters `BEL` and `ESC`.
pub open spec fn no_control(s: Seq<char>) -> bool {
    forall|i: int| 0 <= i < s.len() ==> (#[trigger] s[i]) as u32 != 0x07 && s[i] as u32 != 0x1b
}

proof fn lemma_scalar_bytes(c: u32)
    ensures
        forall|i: int|
            0 <= i < encode_scalar(c).len() ==> {
                let b = #[trigger] encode_scalar(c)[i];
                b >= 0x80 || (c <= 0x7f && b == c)
            },
{
    assert(c <= 0x7f ==> (c & 0x7f) as u8 == c) by (bit_vector);
    assert((0xc0 | ((c >> 6) & 0x1f) as u8) >= 0x80u8) by (bit_vector);
    assert((0xe0 | ((c >> 12) & 0x0f) as u8) >= 0x80u8) by (bit_vector);
    assert((0xf0 | ((c >> 18) & 0x07) as u8) >= 0x80u8) by (bit_vector);
    assert((0x80 | (c & 0x3f) as u8) >= 0x80u8) by (bit_vector);
    assert((0x80 | ((c >> 6) & 0x3f) as u8) >= 0x80u8) by (bit_vector);
    assert((0x80 | ((c >> 12) & 0x3f) as u8) >= 0x80u8) by (bit_vector);
}

proof fn lemma_no_control_bytes(s: Seq<char>)
    requires
        no_control(s),
    ensures
        forall|i: int|
            0 <= i < encode_utf8(s).len() ==> (#[trigger] encode_utf8(s)[i]) != 0x07 && encode_utf8(s)[i]
                != 0x1b,
    decreases s.len(),
{
    if s.len() > 0 {
        lemma_scalar_bytes(s[0] as u32);
        let rest = s.drop_first();
        assert forall|i: int| 0 <= i < rest.len() implies (#[trigger] rest[i]) as u32 != 0x07
            && rest[i] as u32 != 0x1b by {
            assert(rest[i] == s[i + 1]);
        }
        lemma_no_control_bytes(rest);
        let head = encode_scalar(s[0] as u32);
        let tail = encode_utf8(rest);
        assert forall|i: int| 0 <= i < encode_utf8(s).len() implies (#[trigger] encode_utf8(s)[i])
            != 0x07 && encode_utf8(s)[i] != 0x1b by {
            if i < head.len() {
                assert(encode_utf8(s)[i] == head[i]);
            } else {
                assert(encode_utf8(s)[i] == tail[i - head.len()]);
            }
        }
    }
}

/// What the hook prints is read as the directory it was printed in, and leaves nothing on the
/// screen. A host name has no `/` in it, and a directory starts with one.
pub proof fn law_hook_report_is_read(host: Seq<char>, pwd: Seq<char>)
    requires
        no_control(host),
        no_control(pwd),
        !host.contains('/'),
        pwd.len() > 0,
        pwd[0] == '/',
    ensures
        scan(hook_output(host, pwd), 0) == (seq![pwd], Seq::<u8>::empty()),
{
    let text = "file://"@ + host + pwd;
    let p = encode_utf8(text);
    reveal_strlit("file://");
    assert(no_control(text)) by {
        assert forall|i: int| 0 <= i < text.len() implies (#[trigger] text[i]) as u32 != 0x07
            && text[i] as u32 != 0x1b by {
            if i >= 7 + host.len() {
                assert(text[i] == pwd[i - 7 - host.len()]);
            } else if i >= 7 {
                assert(text[i] == host[i - 7]);
            }
        }
    }
    lemma_no_control_bytes(text);
    law_sequence_stripped_and_read(Seq::empty(), p, seq![0x07u8], Seq::empty());
    assert(Seq::<u8>::empty() + sequence(p, seq![0x07u8]) + Seq::<u8>::empty() =~= hook_output(
        host,
        pwd,
    ));
    encode_utf8_valid_utf8(text);
    encode_utf8_decode_utf8(text);
    assert("file://"@.is_prefix_of(text)) by {
        assert(text.subrange(0, 7) =~= "file://"@);
    }
    let rest = text.skip(7);
    let n = host.len() as int;
    assert(rest =~= host + pwd);
    assert(rest[n] == '/');
    assert forall|k: int| 0 <= k < n implies rest[k] != '/' by {
        assert(rest[k] == host[k]);
        assert(host.contains(host[k]));
    }
    lemma_from_slash(rest, n);
    assert(rest.skip(n) =~= pwd);
    assert(payload_path(text) == pwd);
    assert(reported(p) =~= seq![pwd]);
    assert(scan(Seq::<u8>::empty(), 0) == (Seq::<Seq<char>>::empty(), Seq::<u8>::empty()));
    assert(seq![pwd] + Seq::<Seq<char>>::empty() =~= seq![pwd]);
    assert(Seq::<u8>::empty() + Seq::<u8>::empty() =~= Seq::<u8>::empty());
}

/// Whether an attach wipes a session depends on sizes alone: it does where the session's screen
/// does not have the rows and columns asked for, of which there is one at least. Where it has them,
/// the session stays as it is, with its screen and the output kept. Else the screen is empty and of
/// that size, no output is kept, and all else stays.
pub proof fn law_attach_wipes_exactly_on_other_size(s: SessionView, cols: u16, rows: u16)
    ensures
        ({
            let c: u16 = if cols == 0 {
                1
            } else {
                cols
            };
            let r: u16 = if rows == 0 {
                1
            } else {
                rows
            };
            let t = s.reset_to(cols, rows);
            &&& s.size_differs(cols, rows) <==> s.screen.rows != r || s.screen.cols != c
            &&& s.screen.rows == r && s.screen.cols == c ==> t == s
            &&& s.screen.rows != r || s.screen.cols != c ==> {
                &&& t.buffer.len() == 0
                &&& t.screen == blank_screen(r, c)
            }
            &&& t.screen.rows == r && t.screen.cols == c
            &&& t.id == s.id && t.name == s.name && t.cwd == s.cwd
            &&& t.subscribers == s.subscribers && t.cwd_subscribers == s.cwd_subscribers
        }),
{
}

/// Another size leaves a session's output, directory and subscribers alone, and every cell that
/// lies in both sizes.
pub proof fn law_resize_keeps_what_fits(s: SessionView, cols: u16, rows: u16, i: u16, j: u16)
    ensures
        ({
            let c: u16 = if cols == 0 {
                1
            } else {
                cols
            };
            let r: u16 = if rows == 0 {
                1
            } else {
                rows
            };
            let t = s.resized(cols, rows);
            &&& t.screen.rows == r && t.screen.cols == c
            &&& t.buffer == s.buffer && t.cwd == s.cwd && t.id == s.id && t.name == s.name
            &&& t.subscribers == s.subscribers && t.cwd_subscribers == s.cwd_subscribers
            &&& t.screen.cells.contains_key((i, j)) <==> i < r && j < c
            &&& i < r && j < c && s.screen.cells.contains_key((i, j)) ==> t.screen.cells[(i, j)]
                == s.screen.cells[(i, j)]
        }),
{
}

/// A session just made has its number and its name, an empty screen of the size asked for, and
/// nothing else.
pub proof fn law_new_session_is_empty(id: usize, name: Seq<char>, cols: u16, rows: u16)
    ensures
        ({
            let s = SessionView::new(id, name, cols, rows);
            &&& s.id == id && s.name == name && s.cwd is None
            &&& s.buffer.len() == 0 && s.subscribers.len() == 0 && s.cwd_subscribers.len() == 0
            &&& s.screen == blank_screen(
                if rows == 0 {
                    1
                } else {
                    rows
                },
                if cols == 0 {
                    1
                } else {
                    cols
                },
            )
        }),
{
}

/// Output goes to the end of what is kept, of which the last 65536 bytes stay; the last directory
/// reported is the session's; nothing else changes.
pub proof fn law_output_goes_to_the_end(s: SessionView, raw: Seq<u8>)
    ensures
        ({
            let t = s.after_output(raw);
            let all = s.buffer + scan(raw, 0).1;
            let n = all.len() - t.buffer.len();
            &&& t.buffer.len() == if all.len() < 65536 {
                all.len()
            } else {
                65536
            }
            &&& forall|k: int| 0 <= k < t.buffer.len() ==> #[trigger] t.buffer[k] == all[n + k]
            &&& scan(raw, 0).0.len() == 0 ==> t.cwd == s.cwd
            &&& scan(raw, 0).0.len() > 0 ==> t.cwd == Some(scan(raw, 0).0[scan(raw, 0).0.len() - 1])
            &&& t.id == s.id && t.name == s.name && t.screen == s.screen
            &&& t.subscribers == s.subscribers && t.cwd_subscribers == s.cwd_subscribers
        }),
{
}

/// A channel stays listed exactly where it was reached, and those that stay keep their order: of
/// one channel that is plain, and a list in two parts is treated part by part.
pub proof fn law_reached_channels_stay(
    channel: u64,
    reached: bool,
    a: Seq<u64>,
    b: Seq<u64>,
    to_a: Seq<bool>,
    to_b: Seq<bool>,
)
    requires
        to_a.len() == a.len(),
        to_b.len() == b.len(),
    ensures
        still_alive(seq![channel], seq![reached]) == if reached {
            seq![channel]
        } else {
            Seq::<u64>::empty()
        },
        still_alive(a + b, to_a + to_b) == still_alive(a, to_a) + still_alive(b, to_b),
    decreases b.len(),
{
    assert(seq![channel].drop_last() =~= Seq::<u64>::empty());
    reveal_with_fuel(still_alive, 2);
    if reached {
        assert(still_alive(seq![channel], seq![reached]) =~= seq![channel]);
    }
    if b.len() == 0 {
        assert(a + b =~= a);
        assert(to_a + to_b =~= to_a);
        assert(still_alive(a, to_a) + still_alive(b, to_b) =~= still_alive(a, to_a));
    } else {
        law_reached_channels_stay(channel, reached, a, b.drop_last(), to_a, to_b.drop_last());
        assert((a + b).drop_last() =~= a + b.drop_last());
        let flags = to_a + to_b;
        lemma_alive_prefix(a + b.drop_last(), to_a + to_b.drop_last(), flags);
        lemma_alive_prefix(b.drop_last(), to_b.drop_last(), to_b);
        assert(flags[(a + b).len() - 1] == to_b[b.len() - 1]);
        if to_b[b.len() - 1] {
            assert(still_alive(a + b, flags) =~= still_alive(a, to_a) + still_alive(b, to_b));
        }
    }
}

/// Only the flags of the list count.
proof fn lemma_alive_prefix(list: Seq<u64>, x: Seq<bool>, y: Seq<bool>)
    requires
        forall|i: int| 0 <= i < list.len() ==> #[trigger] x[i] == y[i],
    ensures
        still_alive(list, x) == still_alive(list, y),
    decreases list.len(),
{
    if list.len() > 0 {
        lemma_alive_prefix(list.drop_last(), x, y);
        assert(x[list.len() - 1] == y[list.len() - 1]);
    }
}

/// A command is typed as its text and a line feed, and commands one after the other.
pub proof fn law_commands_are_typed_line_by_line(
    cmd: Seq<char>,
    a: Seq<Seq<char>>,
    b: Seq<Seq<char>>,
)
    ensures
        typed(seq![cmd]) == encode_utf8(cmd) + seq![0x0au8],
        typed(a + b) == typed(a) + typed(b),
        typed(Seq::empty()) == Seq::<u8>::empty(),
    decreases b.len(),
{
    reveal_strlit("\n");
    is_ascii_chars_encode_utf8("\n"@);
    assert(encode_utf8("\n"@) =~= seq![0x0au8]);
    assert(seq![cmd].drop_last() =~= Seq::<Seq<char>>::empty());
    reveal_with_fuel(typed, 2);
    assert(typed(seq![cmd]) =~= encode_utf8(cmd) + seq![0x0au8]);
    if b.len() == 0 {
        assert(a + b =~= a);
        assert(typed(a) + typed(b) =~= typed(a));
    } else {
        law_commands_are_typed_line_by_line(cmd, a, b.drop_last());
        assert((a + b).drop_last() =~= a + b.drop_last());
        assert(typed(a + b) =~= typed(a) + typed(b));
    }
}

/// What the start-up file holds: a line that makes the shell report its directory, one that has it
/// do so before each prompt, one that reads the user's own file where there is one, and one that
/// switches the mark of unfinished lines off.
pub proof fn law_startup_file_reports_and_reads_on(user_file: Seq<char>)
    ensures
        zshrc_of(user_file) == "# mbulet session bootstrap\n"@
            + "__mbulet_precmd() { printf '\\e]7;file://%s%s\\a' \"$(hostname -s)\" \"$PWD\"; }\n"@
            + "precmd_functions+=(__mbulet_precmd)\n"@ + ("[[ -f "@ + user_file
            + " ]] && source "@ + user_file + "\nPROMPT_SP=\"\"\n"@),
{
    assert(zshrc_of(user_file) =~= "# mbulet session bootstrap\n"@
        + "__mbulet_precmd() { printf '\\e]7;file://%s%s\\a' \"$(hostname -s)\" \"$PWD\"; }\n"@
        + "precmd_functions+=(__mbulet_precmd)\n"@ + ("[[ -f "@ + user_file + " ]] && source "@
        + user_file + "\nPROMPT_SP=\"\"\n"@));
}

/// Every plan starts `zsh` on a terminal of the size asked for, with a start-up directory of its
/// own that holds the start-up file, and types the commands.
pub proof fn law_plan_starts_zsh_with_own_directory(
    p: ShellPlan,
    id: usize,
    cols: u16,
    rows: u16,
    cmds: Seq<Seq<char>>,
    temp: Seq<u8>,
    home: Seq<u8>,
)
    requires
        plan_ok(p, id, cols, rows, cmds, temp, Some(home)),
        temp.len() > 0 && temp.last() != '/' as u8,
        home.len() > 0 && home.last() != '/' as u8,
    ensures
        p.program@ == "zsh"@,
        p.term@ == "xterm-256color"@,
        p.rows == (if rows == 0 {
            1
        } else {
            rows
        }),
        p.cols == (if cols == 0 {
            1
        } else {
            cols
        }),
        p.zdotdir@ == temp + seq!['/' as u8] + encode_utf8(
            "mbulet-zdotdir-"@ + decimal(id as nat),
        ),
        p.zshrc_path@ == p.zdotdir@ + seq!['/' as u8] + encode_utf8(".zshrc"@),
        p.zshrc@ == zshrc_of(lossy_form(home + seq!['/' as u8] + encode_utf8(".zshrc"@))),
        p.input@ == typed(cmds),
{
    law_joined_by_one_slash(temp, encode_utf8("mbulet-zdotdir-"@ + decimal(id as nat)));
    law_joined_by_one_slash(home, encode_utf8(".zshrc"@));
    law_joined_by_one_slash(p.zdotdir@, encode_utf8(".zshrc"@));
    let name = "mbulet-zdotdir-"@ + decimal(id as nat);
    reveal_strlit("mbulet-zdotdir-");
    law_decimal_is_read_back(id as nat);
    assert(is_ascii_chars(name)) by {
        assert forall|i: int| 0 <= i < name.len() implies (#[trigger] name[i]) as int <= 127 by {
            if i >= 15 {
                assert(name[i] == decimal(id as nat)[i - 15]);
            }
        }
    }
    is_ascii_chars_encode_utf8(name);
    assert(p.zdotdir@.last() == name.last() as u8);
    assert(name.last() == decimal(id as nat).last());
}

/// Two sessions have different start-up directories.
pub proof fn law_startup_directories_differ(temp: Seq<u8>, a: usize, b: usize)
    requires
        a != b,
    ensures
        zdotdir_of(temp, a) != zdotdir_of(temp, b),
{
    if zdotdir_of(temp, a) == zdotdir_of(temp, b) {
        let (x, y) = (
            "mbulet-zdotdir-"@ + decimal(a as nat),
            "mbulet-zdotdir-"@ + decimal(b as nat),
        );
        let (p, q) = (encode_utf8(x), encode_utf8(y));
        let n = zdotdir_of(temp, a).len() - p.len();
        assert(zdotdir_of(temp, a).skip(n) =~= p);
        assert(zdotdir_of(temp, b).skip(n) =~= q);
        encode_utf8_decode_utf8(x);
        encode_utf8_decode_utf8(y);
        assert(x == y);
        let k = "mbulet-zdotdir-"@.len() as int;
        assert(x.skip(k) =~= decimal(a as nat));
        assert(y.skip(k) =~= decimal(b as nat));
        law_decimal_is_read_back(a as nat);
        law_decimal_is_read_back(b as nat);
    }
}

} // verus!
