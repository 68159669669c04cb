//! The start-up checks the banner reports, one step at a time: finding ffmpeg
//! and ffprobe, reading the build's version line and which of the encoders
//! the output formats need it actually has.
//!
//! The checks themselves (looking along `PATH`, running ffmpeg) are done by
//! the caller; [`Boot::advance`] takes what each one found and decides what
//! the banner shows and what is checked next.

use vstd::prelude::*;
use crate::preset::{Target, target_encoder, targets};
use crate::text::{
    chars_of, find, find_chars_from, join_strings, join_with, push_decimal, split_whitespace,
    string_of, views, words, lemma_find_shift, lemma_find_from,
};

verus! {

/// The first three words of the first line, joined by single spaces;
/// `unknown` for empty output.
pub open spec fn version_text(out: Seq<char>) -> Seq<char> {
    let line = if out.len() == 0 {
        "unknown"@
    } else {
        let k = find(out, "\n"@);
        if k < 0 {
            out
        } else {
            out.take(k)
        }
    };
    let w = words(line);
    join_with(
        if w.len() > 3 {
            w.take(3)
        } else {
            w
        },
        " "@,
    )
}

/// "ffmpeg version 7.1.1" off the first line of `ffmpeg -version`.
pub fn version_line(out: &str) -> (r: String)
    ensures
        r@ == version_text(out@),
{
    proof {
        reveal_strlit("\n");
    }
    let c = chars_of(out);
    let line: Vec<char> = if c.len() == 0 {
        chars_of("unknown")
    } else {
        let nl = chars_of("\n");
        match find_chars_from(c.as_slice(), nl.as_slice(), 0) {
            Some(k) => {
                proof {
                    lemma_find_from(c@, nl@, 0);
                }
                let s = string_of(c.as_slice(), 0, k);
                assert(c@.subrange(0, k as int) =~= c@.take(k as int));
                chars_of(s.as_str())
            },
            None => c,
        }
    };
    let w = split_whitespace(line.as_slice());
    let mut first: Vec<String> = Vec::new();
    let mut i: usize = 0;
    while i < w.len() && i < 3
        invariant
            i <= w@.len(),
            i <= 3,
            views(first@) == views(w@).take(i as int),
        decreases w.len() - i,
    {
        let ghost before = views(first@);
        crate::text::push_owned(&mut first, w[i].clone());
        assert(views(first@) =~= views(w@).take(i + 1));
        i += 1;
    }
    proof {
        if w@.len() <= 3 {
            assert(views(w@).take(i as int) =~= views(w@));
        }
    }
    join_strings(&first, " ")
}

/// The second word of every line that has one, in order.
pub open spec fn second_words(s: Seq<char>) -> Seq<Seq<char>>
    decreases s.len(),
{
    let k = find(s, "\n"@);
    let head = if k < 0 {
        s
    } else {
        s.take(k)
    };
    let w = words(head);
    let here = if w.len() >= 2 {
        seq![w[1]]
    } else {
        Seq::<Seq<char>>::empty()
    };
    if k < 0 {
        here
    } else {
        proof {
            lemma_find_from(s, "\n"@, 0);
            reveal_strlit("\n");
        }
        here + second_words(s.skip(k + 1))
    }
}

/// Each encoder the output formats need, once.
pub open spec fn needed_encoders() -> Seq<Seq<char>> {
    seq!["dnxhd"@, "prores_ks"@, "libsvtav1"@, "libx264"@, "libx265"@, "utvideo"@, "ffv1"@]
}

/// The needed encoders that `ffmpeg -encoders` lists, in format order.
pub open spec fn available_encoders(out: Seq<char>) -> Seq<Seq<char>> {
    needed_encoders().filter(|e: Seq<char>| second_words(out).contains(e))
}

fn second_word_list(c: &Vec<char>) -> (r: Vec<String>)
    ensures
        views(r@) == second_words(c@),
{
    proof {
        reveal_strlit("\n");
    }
    let nl = chars_of("\n");
    let mut r: Vec<String> = Vec::new();
    let mut i: usize = 0;
    assert(c@.skip(0) =~= c@);
    loop
        invariant
            nl@ == "\n"@,
            nl@.len() == 1,
            i <= c@.len(),
            views(r@) + second_words(c@.skip(i as int)) == second_words(c@),
        decreases c@.len() - i,
    {
        let ghost s = c@.skip(i as int);
        let found = find_chars_from(c.as_slice(), nl.as_slice(), i);
        proof {
            lemma_find_shift(c@, nl@, i as int, 0);
            lemma_find_from(c@, nl@, i as int);
        }
        let end = match found {
            Some(k) => k,
            None => c.len(),
        };
        proof {
            if found is Some {
                assert(crate::text::occurs_at(c@, nl@, end as int));
            }
        }
        let head = string_of(c.as_slice(), i, end);
        let hc = chars_of(head.as_str());
        let w = split_whitespace(hc.as_slice());
        proof {
            if found is Some {
                assert(hc@ =~= s.take(end - i));
            } else {
                assert(hc@ =~= s);
            }
        }
        let ghost before = views(r@);
        if w.len() >= 2 {
            r.push(w[1].clone());
            assert(views(r@) =~= before.push(w@[1]@));
        }
        match found {
            None => {
                proof {
                    assert(views(r@) =~= before + (if w@.len() >= 2 { seq![w@[1]@] } else { Seq::<Seq<char>>::empty() }));
                }
                return r;
            },
            Some(k) => {
                proof {
                    assert(crate::text::occurs_at(c@, nl@, k as int));
                    assert(s.skip(k - i + 1) =~= c@.skip(k + 1));
                    assert(views(r@) + second_words(c@.skip(k + 1)) =~= before + second_words(s));
                    assert(k < c@.len());
                    assert(c@.len() == c.len());
                }
                i = k + 1;
            },
        }
    }
}

/// The encoder names the formats need, picked out of `ffmpeg -encoders`.
/// Each line reads ` V....D libx264   libx264 H.264 ...`: the second
/// white-space separated field is the name.
pub fn parse_encoders(out: &str) -> (r: Vec<String>)
    ensures
        views(r@) == available_encoders(out@),
{
    let c = chars_of(out);
    let seconds = second_word_list(&c);
    let needed = vec!["dnxhd", "prores_ks", "libsvtav1", "libx264", "libx265", "utvideo", "ffv1"];
    assert(needed@.map_values(|e: &str| e@) =~= needed_encoders());
    let ghost pred = |e: Seq<char>| second_words(out@).contains(e);
    let mut r: Vec<String> = Vec::new();
    let mut i: usize = 0;
    while i < needed.len()
        invariant
            needed@.map_values(|e: &str| e@) == needed_encoders(),
            views(seconds@) == second_words(out@),
            pred == (|e: Seq<char>| second_words(out@).contains(e)),
            i <= needed@.len(),
            views(r@) == needed_encoders().take(i as int).filter(pred),
        decreases needed.len() - i,
    {
        let mut found = false;
        let mut k: usize = 0;
        while k < seconds.len()
            invariant
                views(seconds@) == second_words(out@),
                i < needed@.len(),
                k <= seconds@.len(),
                found == exists|m: int| 0 <= m < k && seconds@[m]@ == needed@[i as int]@,
            decreases seconds.len() - k,
        {
            if crate::text::same_text(seconds[k].as_str(), needed[i]) {
                found = true;
            }
            k += 1;
        }
        proof {
            let e = needed@[i as int]@;
            assert(needed_encoders()[i as int] == e);
            if found {
                let m = choose|m: int| 0 <= m < seconds@.len() && seconds@[m]@ == e;
                assert(views(seconds@)[m] == e);
            }
            if second_words(out@).contains(e) {
                let m = choose|m: int| 0 <= m < second_words(out@).len() && second_words(out@)[m] == e;
                assert(seconds@[m]@ == e);
            }
            assert(needed_encoders().take(i + 1).drop_last() =~= needed_encoders().take(i as int));
            crate::text::lemma_filter_push(needed_encoders().take(i as int), pred, e);
            assert(needed_encoders().take(i as int).push(e) =~= needed_encoders().take(i + 1));
        }
        if found {
            let ghost before = views(r@);
            r.push(needed[i].to_string());
            assert(views(r@) =~= before.push(needed@[i as int]@));
        }
        i += 1;
    }
    assert(needed_encoders().take(7) =~= needed_encoders());
    r
}

/// Whether `list` holds `name`.
fn holds(list: &Vec<String>, name: &str) -> (r: bool)
    ensures
        r == views(list@).contains(name@),
{
    let mut k: usize = 0;
    while k < list.len()
        invariant
            k <= list@.len(),
            forall|m: int| 0 <= m < k ==> list@[m]@ != name@,
        decreases list.len() - k,
    {
        if crate::text::same_text(list[k].as_str(), name) {
            assert(views(list@)[k as int] == name@);
            return true;
        }
        k += 1;
    }
    proof {
        if views(list@).contains(name@) {
            let m = choose|m: int| 0 <= m < views(list@).len() && views(list@)[m] == name@;
            assert(list@[m]@ == name@);
        }
    }
    false
}

/// Whether this ffmpeg build can produce `target`. Everything is allowed
/// until the start-up check has answered (no encoders known yet).
pub fn supports(encoders: &Vec<String>, target: Target) -> (r: bool)
    ensures
        r == (encoders@.len() == 0 || views(encoders@).contains(target_encoder(target))),
{
    encoders.len() == 0 || holds(encoders, target.encoder())
}

/// The encoder of every format the build cannot produce, in format order
/// (a shared encoder is named once per format).
pub open spec fn missing_encoders(available: Seq<Seq<char>>) -> Seq<Seq<char>> {
    seq![
        Target::DnxhrMov,
        Target::ProresMov,
        Target::Av1Mp4,
        Target::Av1Mkv,
        Target::H264Mp4,
        Target::H265Mp4,
        Target::UtvideoAvi,
        Target::Ffv1Mkv,
    ].filter(|t: Target| !available.contains(target_encoder(t))).map_values(
        |t: Target| target_encoder(t),
    )
}

/// The start-up log line about encoders.
pub open spec fn encoder_summary_text(available: Seq<Seq<char>>) -> Seq<char> {
    let missing = missing_encoders(available);
    if missing.len() == 0 {
        "encoders  all 8 output formats available"@
    } else {
        "encoders  missing "@ + join_with(missing, ", "@)
    }
}

pub fn encoder_summary(available: &Vec<String>) -> (r: String)
    ensures
        r@ == encoder_summary_text(views(available@)),
{
    let all = targets();
    let ghost pred = |t: Target| !views(available@).contains(target_encoder(t));
    let mut missing: Vec<String> = Vec::new();
    let mut i: usize = 0;
    while i < all.len()
        invariant
            all@ == seq![
                Target::DnxhrMov,
                Target::ProresMov,
                Target::Av1Mp4,
                Target::Av1Mkv,
                Target::H264Mp4,
                Target::H265Mp4,
                Target::UtvideoAvi,
                Target::Ffv1Mkv,
            ],
            pred == (|t: Target| !views(available@).contains(target_encoder(t))),
            i <= all@.len(),
            views(missing@) == all@.take(i as int).filter(pred).map_values(|t: Target| target_encoder(t)),
        decreases all.len() - i,
    {
        let t = all[i];
        proof {
            assert(all@.take(i + 1).drop_last() =~= all@.take(i as int));
            crate::text::lemma_filter_push(all@.take(i as int), pred, t);
            assert(all@.take(i as int).push(t) =~= all@.take(i + 1));
        }
        if !holds(available, t.encoder()) {
            let ghost before = views(missing@);
            missing.push(t.encoder().to_string());
            assert(views(missing@) =~= before.push(target_encoder(t)));
            assert(all@.take(i as int).filter(pred).push(t).map_values(|t: Target| target_encoder(t))
                =~= all@.take(i as int).filter(pred).map_values(|t: Target| target_encoder(t)).push(target_encoder(t)));
        }
        i += 1;
    }
    assert(all@.take(8) =~= all@);
    if missing.len() == 0 {
        let mut s = "encoders  all ".to_string();
        push_decimal(&mut s, all.len() as u64);
        s.append(" output formats available");
        proof {
            reveal_strlit("encoders  all ");
            reveal_strlit(" output formats available");
            reveal_strlit("encoders  all 8 output formats available");
            assert(crate::text::decimal(8) == seq!['8']);
            assert(s@ =~= "encoders  all 8 output formats available"@);
        }
        s
    } else {
        let mut s = "encoders  missing ".to_string();
        let j = join_strings(&missing, ", ");
        s.append(j.as_str());
        s
    }
}

/// How many steps start-up walks through.
pub const BOOT_STEPS: usize = 5;

/// Where start-up stands, and so what the caller does next: look for a tool
/// (`Ffmpeg`, `Ffprobe`), run ffmpeg for its version or its encoder list,
/// hold the banner a moment (`Interface`), or nothing more.
#[derive(Debug, Clone, Copy, PartialEq, Eq, Structural)]
pub enum Stage {
    Starting,
    Ffmpeg,
    Ffprobe,
    Version,
    Encoders,
    Interface,
    Ready,
    Failed,
}

/// What a check came back with.
pub enum Reply {
    /// Where the tool looked for was found, if it was.
    Located(Option<String>),
    /// What ffmpeg printed, or `None` when it could not be run.
    Printed(Option<String>),
    /// The banner has been shown long enough.
    Waited,
}

/// What the banner shows while start-up runs, and what it found.
pub struct Boot {
    pub stage: Stage,
    /// What is being done right now.
    pub step: String,
    /// One line per finished step, newest last.
    pub log: Vec<String>,
    /// Why start-up cannot go on, if it cannot.
    pub error: Option<String>,
    /// `ffmpeg version 7.1.1` and the like.
    pub version: String,
    /// The needed encoders this build has.
    pub encoders: Vec<String>,
}

/// How many of the steps are behind us in each stage; the banner's bar
/// shows this share of [`BOOT_STEPS`].
pub open spec fn stage_done(s: Stage) -> nat {
    match s {
        Stage::Starting | Stage::Ffmpeg => 0,
        Stage::Ffprobe => 1,
        Stage::Version => 2,
        Stage::Encoders => 3,
        Stage::Interface => 4,
        Stage::Ready | Stage::Failed => 5,
    }
}

/// `new` is `old` with the step `name` begun and `line` (if any) logged for
/// the step just finished; what was found so far is kept.
pub open spec fn began(old: Boot, name: Seq<char>, line: Option<Seq<char>>, new: Boot) -> bool {
    &&& new.step@ == name
    &&& views(new.log@) == match line {
        Some(l) => views(old.log@).push(l),
        None => views(old.log@),
    }
    &&& new.error == old.error
}

/// `new` is `old` stopped with `msg`.
pub open spec fn failed_with(old: Boot, msg: Seq<char>, new: Boot) -> bool {
    &&& new.stage == Stage::Failed
    &&& new.error matches Some(e) && e@ == msg
    &&& new.step@ == "Cannot start"@
    &&& new.log == old.log
    &&& new.version == old.version
    &&& new.encoders == old.encoders
}

/// The version a `ffmpeg -version` run gives: its first line's first words,
/// or `unknown` when ffmpeg could not be run.
pub open spec fn version_of(out: Option<String>) -> Seq<char> {
    match out {
        Some(o) => version_text(o@),
        None => "unknown"@,
    }
}

/// The needed encoders a `ffmpeg -encoders` run lists; none when ffmpeg
/// could not be run.
pub open spec fn encoders_of(out: Option<String>) -> Seq<Seq<char>> {
    match out {
        Some(o) => available_encoders(o@),
        None => Seq::empty(),
    }
}

/// One step of start-up: what `reply` does to `old`. A reply that does not
/// answer the stage's question changes nothing.
pub open spec fn advanced(old: Boot, reply: Reply, new: Boot) -> bool {
    match (old.stage, reply) {
        (Stage::Ffmpeg, Reply::Located(None)) => failed_with(
            old,
            "ffmpeg was not found on your PATH"@,
            new,
        ),
        (Stage::Ffmpeg, Reply::Located(Some(p))) => {
            &&& began(old, "Looking for ffprobe"@, Some("ffmpeg    "@ + p@), new)
            &&& new.stage == Stage::Ffprobe
            &&& new.version == old.version
            &&& new.encoders == old.encoders
        },
        (Stage::Ffprobe, Reply::Located(None)) => failed_with(
            old,
            "ffprobe was not found on your PATH"@,
            new,
        ),
        (Stage::Ffprobe, Reply::Located(Some(p))) => {
            &&& began(old, "Reading the ffmpeg build"@, Some("ffprobe   "@ + p@), new)
            &&& new.stage == Stage::Version
            &&& new.version == old.version
            &&& new.encoders == old.encoders
        },
        (Stage::Version, Reply::Printed(out)) => {
            &&& began(
                old,
                "Checking which encoders are available"@,
                Some("version   "@ + version_of(out)),
                new,
            )
            &&& new.stage == Stage::Encoders
            &&& new.version@ == version_of(out)
            &&& new.encoders == old.encoders
        },
        (Stage::Encoders, Reply::Printed(out)) => {
            &&& began(
                old,
                "Preparing the interface"@,
                Some(encoder_summary_text(encoders_of(out))),
                new,
            )
            &&& new.stage == Stage::Interface
            &&& new.version == old.version
            &&& views(new.encoders@) == encoders_of(out)
        },
        (Stage::Interface, Reply::Waited) => {
            &&& new.stage == Stage::Ready
            &&& new.step@ == "Ready"@
            &&& new.log == old.log
            &&& new.error == old.error
            &&& new.version == old.version
            &&& new.encoders == old.encoders
        },
        _ => new == old,
    }
}

impl Boot {
    /// Before the first check: `Starting up`, nothing found yet.
    pub fn new() -> (r: Boot)
        ensures
            r.stage == Stage::Starting,
            r.step@ == "Starting up"@,
            r.log@.len() == 0,
            r.error is None,
            r.version@.len() == 0,
            r.encoders@.len() == 0,
    {
        Boot {
            stage: Stage::Starting,
            step: "Starting up".to_string(),
            log: Vec::new(),
            error: None,
            version: String::new(),
            encoders: Vec::new(),
        }
    }

    /// Starts the checks: the first is looking for ffmpeg.
    pub fn start(&mut self)
        ensures
            old(self).stage == Stage::Starting ==> began(*old(self), "Looking for ffmpeg"@, None, *final(self))
                && final(self).stage == Stage::Ffmpeg && final(self).version == old(self).version
                && final(self).encoders == old(self).encoders,
            old(self).stage != Stage::Starting ==> *final(self) == *old(self),
    {
        if self.stage == Stage::Starting {
            self.begin("Looking for ffmpeg", None);
            self.stage = Stage::Ffmpeg;
        }
    }

    fn begin(&mut self, name: &str, line: Option<String>)
        ensures
            began(*old(self), name@, match line {
                Some(l) => Some(l@),
                None => None,
            }, *final(self)),
            final(self).stage == old(self).stage,
            final(self).version == old(self).version,
            final(self).encoders == old(self).encoders,
    {
        if let Some(l) = line {
            crate::text::push_owned(&mut self.log, l);
        }
        self.step = name.to_string();
    }

    fn fail(&mut self, msg: &str)
        ensures
            failed_with(*old(self), msg@, *final(self)),
    {
        self.error = Some(msg.to_string());
        self.step = "Cannot start".to_string();
        self.stage = Stage::Failed;
    }

    /// Takes what the current check found and moves on to the next.
    pub fn advance(&mut self, reply: Reply)
        ensures
            advanced(*old(self), reply, *final(self)),
    {
        match (self.stage, reply) {
            (Stage::Ffmpeg, Reply::Located(None)) => {
                self.fail("ffmpeg was not found on your PATH");
            },
            (Stage::Ffmpeg, Reply::Located(Some(p))) => {
                let mut line = "ffmpeg    ".to_string();
                line.append(p.as_str());
                self.begin("Looking for ffprobe", Some(line));
                self.stage = Stage::Ffprobe;
            },
            (Stage::Ffprobe, Reply::Located(None)) => {
                self.fail("ffprobe was not found on your PATH");
            },
            (Stage::Ffprobe, Reply::Located(Some(p))) => {
                let mut line = "ffprobe   ".to_string();
                line.append(p.as_str());
                self.begin("Reading the ffmpeg build", Some(line));
                self.stage = Stage::Version;
            },
            (Stage::Version, Reply::Printed(out)) => {
                let v = match out {
                    Some(text) => version_line(text.as_str()),
                    None => "unknown".to_string(),
                };
                let mut line = "version   ".to_string();
                line.append(v.as_str());
                self.version = v;
                self.begin("Checking which encoders are available", Some(line));
                self.stage = Stage::Encoders;
            },
            (Stage::Encoders, Reply::Printed(out)) => {
                let found = match out {
                    Some(text) => parse_encoders(text.as_str()),
                    None => Vec::new(),
                };
                assert(views(found@) =~= encoders_of(out));
                let summary = encoder_summary(&found);
                self.encoders = found;
                self.begin("Preparing the interface", Some(summary));
                self.stage = Stage::Interface;
            },
            (Stage::Interface, Reply::Waited) => {
                self.step = "Ready".to_string();
                self.stage = Stage::Ready;
            },
            _ => {},
        }
    }

    /// How many steps are behind us.
    pub fn steps_done(&self) -> (r: usize)
        ensures
            r == stage_done(self.stage),
    {
        match self.stage {
            Stage::Starting | Stage::Ffmpeg => 0,
            Stage::Ffprobe => 1,
            Stage::Version => 2,
            Stage::Encoders => 3,
            Stage::Interface => 4,
            Stage::Ready | Stage::Failed => 5,
        }
    }

    /// Whether the app can be shown.
    pub fn is_ready(&self) -> (r: bool)
        ensures
            r == (self.stage == Stage::Ready),
    {
        self.stage == Stage::Ready
    }
}

/// Start-up finishes and reports every step: when ffmpeg and ffprobe are both
/// found and the banner has waited, start-up ends ready, with no error, one
/// log line per completed step, the version ffmpeg printed and the encoders
/// it listed.
pub proof fn lemma_boot_reports_every_step(
    b0: Boot,
    b1: Boot,
    b2: Boot,
    b3: Boot,
    b4: Boot,
    b5: Boot,
    b6: Boot,
    ffmpeg: String,
    ffprobe: String,
    version_out: Option<String>,
    encoders_out: Option<String>,
)
    requires
        b0.stage == Stage::Starting,
        b0.log@.len() == 0,
        b0.error is None,
        began(b0, "Looking for ffmpeg"@, None, b1),
        b1.stage == Stage::Ffmpeg,
        advanced(b1, Reply::Located(Some(ffmpeg)), b2),
        advanced(b2, Reply::Located(Some(ffprobe)), b3),
        advanced(b3, Reply::Printed(version_out), b4),
        advanced(b4, Reply::Printed(encoders_out), b5),
        advanced(b5, Reply::Waited, b6),
    ensures
        b6.stage == Stage::Ready,
        b6.error is None,
        stage_done(b6.stage) == BOOT_STEPS,
        b6.log@.len() == BOOT_STEPS - 1,
        b6.version@ == version_of(version_out),
        views(b6.encoders@) == encoders_of(encoders_out),
        views(b6.encoders@).len() <= needed_encoders().len(),
{
    assert(views(b1.log@).len() == 0);
    assert(views(b6.log@).len() == 4);
    match encoders_out {
        Some(o) => {
            needed_encoders().lemma_filter_len(|e: Seq<char>| second_words(o@).contains(e));
        },
        None => {},
    }
}

} // verus!
