//! The music players' bookkeeping: what the tracker-module player and the
//! regular audio player report, how each command changes it, which player a
//! chosen file goes to, and the names shown for what is playing.
//!
//! Decoding and sound output are done by the caller; these functions decide
//! what the players' state becomes.
//!
//! Paths are Unix paths (the program runs on X11 desktops): `/` separates
//! their parts, and what `std::path` makes of them is Unix behaviour.

use vstd::prelude::*;
use crate::text::{ascii_lower_chars, ascii_lower_seq, chars_eq, chars_of, has_prefix, starts_with};

verus! {

broadcast use vstd::string::group_string_axioms;

/// What `Path::new(p).file_name()` gives, as UTF-8 text, if anything.
pub uninterp spec fn path_file_name(p: Seq<char>) -> Option<Seq<char>>;

/// What `Path::new(p).extension()` gives, as UTF-8 text, if anything.
pub uninterp spec fn path_extension(p: Seq<char>) -> Option<Seq<char>>;

/// What `str::to_uppercase` gives (full Unicode case mapping).
pub uninterp spec fn upper_case(s: Seq<char>) -> Seq<char>;

/// What `str::to_lowercase` gives (full Unicode case mapping).
pub uninterp spec fn lower_case(s: Seq<char>) -> Seq<char>;

/// The final component of a path.
///
/// Trusted: `std::path::Path::file_name` then `OsStr::to_str`; the result is
/// named.
#[verifier::external_body]
fn file_name_of(p: &str) -> (r: Option<String>)
    ensures
        match r {
            Some(s) => path_file_name(p@) == Some(s@),
            None => path_file_name(p@) is None,
        },
{
    std::path::Path::new(p).file_name().and_then(|n| n.to_str()).map(|s| s.to_string())
}

/// The extension of a path's final component.
///
/// Trusted: `std::path::Path::extension` then `OsStr::to_str`; the result is
/// named.
#[verifier::external_body]
fn extension_of(p: &str) -> (r: Option<String>)
    ensures
        match r {
            Some(s) => path_extension(p@) == Some(s@),
            None => path_extension(p@) is None,
        },
{
    std::path::Path::new(p).extension().and_then(|e| e.to_str()).map(|s| s.to_string())
}

/// Trusted: `str::to_uppercase`; the result is named.
#[verifier::external_body]
fn to_upper(s: &str) -> (r: String)
    ensures
        r@ == upper_case(s@),
{
    s.to_uppercase()
}

/// Trusted: `str::to_lowercase`; the result is named.
#[verifier::external_body]
fn to_lower(s: &str) -> (r: String)
    ensures
        r@ == lower_case(s@),
{
    s.to_lowercase()
}

/// The name shown for a file: its file name, or the whole path when it has
/// none.
pub open spec fn display_name_spec(p: Seq<char>) -> Seq<char> {
    match path_file_name(p) {
        Some(n) => n,
        None => p,
    }
}

pub fn display_name(p: &str) -> (r: String)
    ensures
        r@ == display_name_spec(p@),
{
    match file_name_of(p) {
        Some(n) => n,
        None => p.to_string(),
    }
}

/// The format shown for a file: its extension in capitals, or nothing.
pub open spec fn format_label_spec(p: Seq<char>) -> Seq<char> {
    match path_extension(p) {
        Some(e) => upper_case(e),
        None => Seq::empty(),
    }
}

pub fn format_label(p: &str) -> (r: String)
    ensures
        r@ == format_label_spec(p@),
{
    match extension_of(p) {
        Some(e) => to_upper(e.as_str()),
        None => String::new(),
    }
}

/// The extension of a chosen file in lower case ("" when it has none).
pub open spec fn lower_extension_spec(p: Seq<char>) -> Seq<char> {
    match path_extension(p) {
        Some(e) => lower_case(e),
        None => Seq::empty(),
    }
}

pub fn lower_extension(p: &str) -> (r: String)
    ensures
        r@ == lower_extension_spec(p@),
{
    match extension_of(p) {
        Some(e) => to_lower(e.as_str()),
        None => String::new(),
    }
}

/// Which player a chosen audio file goes to.
#[derive(Clone, Copy, PartialEq, Eq, Structural, Debug)]
pub enum AudioKind {
    /// A tracker module (.mod, .xm, .it, …): the module player.
    Tracker,
    /// A `.pls` playlist: parsed, then played by the regular player.
    Playlist,
    /// Anything else: the regular player.
    Regular,
}

/// The extensions of tracker modules.
pub open spec fn tracker_exts() -> Seq<Seq<char>> {
    seq![
        "mod"@,
        "xm"@,
        "it"@,
        "s3m"@,
        "mptm"@,
        "mo3"@,
        "okt"@,
        "umx"@,
        "669"@,
        "far"@,
        "mtm"@,
    ]
}

pub open spec fn audio_kind_spec(ext: Seq<char>) -> AudioKind {
    if tracker_exts().contains(ext) {
        AudioKind::Tracker
    } else if ext == "pls"@ {
        AudioKind::Playlist
    } else {
        AudioKind::Regular
    }
}

/// The player for a file with (lower-case) extension `ext`.
pub fn audio_kind(ext: &str) -> (r: AudioKind)
    ensures
        r == audio_kind_spec(ext@),
{
    let e = chars_of(ext);
    let exts: Vec<&str> = vec!["mod", "xm", "it", "s3m", "mptm", "mo3", "okt", "umx", "669", "far", "mtm"];
    assert(exts@.map_values(|s: &str| s@) =~= tracker_exts());
    let mut i: usize = 0;
    while i < exts.len()
        invariant
            i <= exts.len(),
            exts@.map_values(|s: &str| s@) == tracker_exts(),
            e@ == ext@,
            forall|k: int| 0 <= k < i ==> tracker_exts()[k] != ext@,
        decreases exts.len() - i,
    {
        let cand = chars_of(exts[i]);
        assert(tracker_exts()[i as int] == exts@[i as int]@);
        if chars_eq(cand.as_slice(), e.as_slice()) {
            assert(tracker_exts()[i as int] == ext@);
            return AudioKind::Tracker;
        }
        i = i + 1;
    }
    assert(!tracker_exts().contains(ext@));
    let pls = chars_of("pls");
    if chars_eq(pls.as_slice(), e.as_slice()) {
        AudioKind::Playlist
    } else {
        AudioKind::Regular
    }
}

/// The tracker-module formats the module player takes, by extension.
pub open spec fn is_tracker_module_ext(ext: Seq<char>) -> bool {
    ||| ext == "mod"@
    ||| ext == "xm"@
    ||| ext == "it"@
    ||| ext == "s3m"@
    ||| ext == "mptm"@
    ||| ext == "mo3"@
    ||| ext == "okt"@
    ||| ext == "umx"@
    ||| ext == "669"@
    ||| ext == "far"@
    ||| ext == "mtm"@
}

/// A chosen file goes to the module player exactly when its extension is
/// one of mod, xm, it, s3m, mptm, mo3, okt, umx, 669, far and mtm; to the
/// playlist parser exactly when it is pls; and to the regular player
/// otherwise.
pub proof fn lemma_audio_kind_routes(ext: Seq<char>)
    ensures
        audio_kind_spec(ext) == AudioKind::Tracker <==> is_tracker_module_ext(ext),
        audio_kind_spec(ext) == AudioKind::Playlist <==> ext == "pls"@,
        audio_kind_spec(ext) == AudioKind::Regular <==> !is_tracker_module_ext(ext) && ext != "pls"@,
{
    reveal_strlit("mod");
    reveal_strlit("xm");
    reveal_strlit("it");
    reveal_strlit("s3m");
    reveal_strlit("mptm");
    reveal_strlit("mo3");
    reveal_strlit("okt");
    reveal_strlit("umx");
    reveal_strlit("669");
    reveal_strlit("far");
    reveal_strlit("mtm");
    reveal_strlit("pls");
    let t = tracker_exts();
    assert(t.len() == 11);
    assert(t[0] == "mod"@ && t[1] == "xm"@ && t[2] == "it"@ && t[3] == "s3m"@ && t[4] == "mptm"@);
    assert(t[5] == "mo3"@ && t[6] == "okt"@ && t[7] == "umx"@ && t[8] == "669"@ && t[9] == "far"@);
    assert(t[10] == "mtm"@);
    if is_tracker_module_ext(ext) {
        if ext == "mod"@ { assert(t[0] == ext); }
        else if ext == "xm"@ { assert(t[1] == ext); }
        else if ext == "it"@ { assert(t[2] == ext); }
        else if ext == "s3m"@ { assert(t[3] == ext); }
        else if ext == "mptm"@ { assert(t[4] == ext); }
        else if ext == "mo3"@ { assert(t[5] == ext); }
        else if ext == "okt"@ { assert(t[6] == ext); }
        else if ext == "umx"@ { assert(t[7] == ext); }
        else if ext == "669"@ { assert(t[8] == ext); }
        else if ext == "far"@ { assert(t[9] == ext); }
        else { assert(t[10] == ext); }
        assert(t.contains(ext));
    }
    if t.contains(ext) {
        let i = choose|i: int| 0 <= i < t.len() && t[i] == ext;
        assert(is_tracker_module_ext(ext));
    }
    assert("pls"@.len() == 3 && "pls"@[0] == 'p');
    assert("mod"@[0] == 'm' && "s3m"@[0] == 's' && "mo3"@[0] == 'm' && "okt"@[0] == 'o');
    assert("umx"@[0] == 'u' && "669"@[0] == '6' && "far"@[0] == 'f' && "mtm"@[0] == 'm');
    assert("xm"@.len() == 2 && "it"@.len() == 2 && "mptm"@.len() == 4);
    assert(!is_tracker_module_ext("pls"@));
}

/// A playlist entry that is streamed over HTTP rather than opened as a file.
pub open spec fn is_stream_url_spec(p: Seq<char>) -> bool {
    let lp = ascii_lower_seq(p);
    has_prefix(lp, "http://"@) || has_prefix(lp, "https://"@)
}

pub fn is_stream_url(p: &str) -> (r: bool)
    ensures
        r == is_stream_url_spec(p@),
{
    let c = chars_of(p);
    let lp = ascii_lower_chars(c.as_slice());
    starts_with(lp.as_slice(), chars_of("http://").as_slice()) || starts_with(
        lp.as_slice(),
        chars_of("https://").as_slice(),
    )
}

/// The decimal digits of `n`.
pub open spec fn decimal(n: nat) -> Seq<char>
    decreases n,
{
    if n < 10 {
        seq![digit_char(n)]
    } else {
        decimal(n / 10).push(digit_char(n % 10))
    }
}

pub open spec fn digit_char(d: nat) -> char {
    (('0' as u32) + d) as char
}

fn digit(d: usize) -> (c: char)
    requires
        d < 10,
    ensures
        c == digit_char(d as nat),
{
    let b: u8 = 48u8 + (d as u8);
    b as char
}

/// `n` written in decimal.
pub fn decimal_string(n: usize) -> (r: String)
    ensures
        r@ == decimal(n as nat),
{
    let mut digits: Vec<char> = Vec::new();
    let mut m = n;
    // digits of n from the lowest
    while m >= 10
        invariant
            m <= n,
            decimal(n as nat) == decimal(m as nat) + digits@.reverse(),
        decreases m,
    {
        let ghost old_m = m;
        let d = digit(m % 10);
        let ghost old_digits = digits@;
        digits.push(d);
        m = m / 10;
        assert(decimal(old_m as nat) == decimal(m as nat).push(d));
        assert(digits@.reverse() =~= seq![d] + old_digits.reverse());
        assert(decimal(m as nat).push(d) + old_digits.reverse() =~= decimal(m as nat) + (seq![d]
            + old_digits.reverse()));
    }
    let first = digit(m);
    digits.push(first);
    assert(decimal(m as nat) =~= seq![first]);
    let ghost rev = digits@.reverse();
    assert(rev =~= seq![first] + digits@.drop_last().reverse());
    let mut out = String::new();
    let mut k: usize = digits.len();
    while k > 0
        invariant
            k <= digits.len(),
            out@ == digits@.reverse().take((digits.len() - k) as int),
        decreases k,
    {
        k = k - 1;
        let c = digits[k];
        let ghost before = out@;
        let s = char_string(c);
        out.append(s.as_str());
        assert(out@ =~= digits@.reverse().take((digits.len() - k) as int));
    }
    assert(digits@.reverse().take(digits.len() as int) =~= digits@.reverse());
    assert(decimal(n as nat) =~= digits@.reverse());
    out
}

/// A one-character string.
fn char_string(c: char) -> (r: String)
    ensures
        r@ == seq![c],
{
    let v = vec![c];
    let r = crate::text::string_of(v.as_slice());
    assert(v@ =~= seq![c]);
    r
}

/// The name shown for a loaded playlist: `"<file> (<n> tracks)"`.
pub fn playlist_title(pls_path: &str, tracks: usize) -> (r: String)
    ensures
        r@ == display_name_spec(pls_path@) + " ("@ + decimal(tracks as nat) + " tracks)"@,
{
    let mut r = display_name(pls_path);
    r.append(" (");
    let n = decimal_string(tracks);
    r.append(n.as_str());
    r.append(" tracks)");
    r
}

/// What the module player reports.
#[derive(Clone, Debug)]
pub struct ModInfo {
    pub loaded: bool,
    pub playing: bool,
    pub title: String,
    pub fmt: String,
    pub name: String,
    pub order: i32,
    pub orders: i32,
}

impl ModInfo {
    /// Nothing loaded.
    pub open spec fn is_empty(self) -> bool {
        &&& !self.loaded
        &&& !self.playing
        &&& self.title@ == Seq::<char>::empty()
        &&& self.fmt@ == Seq::<char>::empty()
        &&& self.name@ == Seq::<char>::empty()
        &&& self.order == 0
        &&& self.orders == 0
    }

    pub fn empty() -> (r: ModInfo)
        ensures
            r.is_empty(),
    {
        ModInfo {
            loaded: false,
            playing: false,
            title: String::new(),
            fmt: String::new(),
            name: String::new(),
            order: 0,
            orders: 0,
        }
    }
}

impl ModInfo {
    /// The format shown on the music badge: the decoder's format, or `MOD`
    /// when it reported none.
    pub fn shown_format(&self) -> (r: String)
        ensures
            r@ == if self.fmt@.len() == 0 {
                "MOD"@
            } else {
                self.fmt@
            },
    {
        if self.fmt.as_str().is_empty() {
            "MOD".to_string()
        } else {
            self.fmt.clone()
        }
    }

    /// The name shown on the music badge: the module's title, or its file
    /// name when the title is empty.
    pub fn shown_title(&self) -> (r: String)
        ensures
            r@ == if self.title@.len() == 0 {
                self.name@
            } else {
                self.title@
            },
    {
        if self.title.as_str().is_empty() {
            self.name.clone()
        } else {
            self.title.clone()
        }
    }
}

/// The state word on the music badge.
pub fn state_word(playing: bool) -> (r: &'static str)
    ensures
        r@ == if playing {
            "PLAYING"@
        } else {
            "PAUSED"@
        },
{
    if playing {
        "PLAYING"
    } else {
        "PAUSED"
    }
}

/// A command the module player's thread has received, after its module
/// was (or could not be) created.
pub enum ModEvent {
    /// A module was created from the loaded file: its title, its format
    /// extension as the decoder reports it, its file name and its number of
    /// orders.
    Loaded { title: String, fmt: String, name: String, orders: i32 },
    Pause,
    Resume,
    Stop,
}

/// `after` is the module player's state once `e` has been applied to
/// `before`.
pub open spec fn mod_step(before: ModInfo, e: ModEvent, after: ModInfo) -> bool {
    match e {
        ModEvent::Loaded { title, fmt, name, orders } => {
            &&& after.loaded
            &&& after.playing
            &&& after.title@ == title@
            &&& after.fmt@ == upper_case(fmt@)
            &&& after.name@ == name@
            &&& after.order == 0
            &&& after.orders == orders
        },
        ModEvent::Pause => after == (ModInfo { playing: false, ..before }),
        ModEvent::Resume => after == (ModInfo { playing: true, ..before }),
        ModEvent::Stop => after.is_empty(),
    }
}

/// Whether the player plays after the pauses and resumes of `es`, starting
/// from `p`: the last of them decides; with none, `p` stays.
pub open spec fn playing_after(es: Seq<ModEvent>, p: bool) -> bool
    decreases es.len(),
{
    if es.len() == 0 {
        p
    } else {
        match es.last() {
            ModEvent::Pause => false,
            ModEvent::Resume => true,
            _ => playing_after(es.drop_last(), p),
        }
    }
}

/// Law: after any sequence of pauses and resumes, the module player plays
/// exactly when the last of them was a resume (or, with none, as before),
/// and everything else it reports is unchanged.  `states[k + 1]` is the
/// state once event `k` has been applied to `states[k]`.
pub proof fn lemma_mod_toggles(states: Seq<ModInfo>, es: Seq<ModEvent>)
    requires
        states.len() == es.len() + 1,
        forall|k: int| 0 <= k < es.len() ==> mod_step(states[k], #[trigger] es[k], states[k + 1]),
        forall|k: int| 0 <= k < es.len() ==> (#[trigger] es[k] is Pause || es[k] is Resume),
    ensures
        states.last() == (ModInfo { playing: playing_after(es, states[0].playing), ..states[0] }),
    decreases es.len(),
{
    if es.len() > 0 {
        let n = es.len() - 1;
        let ps = states.drop_last();
        let pe = es.drop_last();
        assert forall|k: int| 0 <= k < pe.len() implies mod_step(ps[k], #[trigger] pe[k], ps[k + 1]) by {
            assert(mod_step(states[k], es[k], states[k + 1]));
        }
        assert forall|k: int| 0 <= k < pe.len() implies (#[trigger] pe[k] is Pause || pe[k] is Resume) by {
            assert(es[k] is Pause || es[k] is Resume);
        }
        lemma_mod_toggles(ps, pe);
        assert(mod_step(states[n], es[n], states[n + 1]));
        assert(es[n] is Pause || es[n] is Resume);
        assert(ps.last() == states[n]);
        assert(ps[0] == states[0]);
    }
}

/// The module player's state after an event: a new module starts playing
/// from order 0; pause and resume only switch `playing`; stop forgets the
/// module.
pub fn mod_apply(info: &mut ModInfo, e: ModEvent)
    ensures
        mod_step(*old(info), e, *final(info)),
{
    match e {
        ModEvent::Loaded { title, fmt, name, orders } => {
            let up = to_upper(fmt.as_str());
            *info = ModInfo { loaded: true, playing: true, title, fmt: up, name, order: 0, orders };
        },
        ModEvent::Pause => {
            info.playing = false;
        },
        ModEvent::Resume => {
            info.playing = true;
        },
        ModEvent::Stop => {
            *info = ModInfo::empty();
        },
    }
}

/// The command that P sends to the module player: pause when it plays,
/// resume otherwise.
pub fn mod_toggle_event(playing: bool) -> (r: ModEvent)
    ensures
        playing ==> r is Pause,
        !playing ==> r is Resume,
{
    if playing {
        ModEvent::Pause
    } else {
        ModEvent::Resume
    }
}

/// Stereo frames to decode in one round: as many as the ring buffer has
/// room for (two samples each), at most 4096.
pub fn frames_to_decode(free_samples: usize) -> (r: usize)
    ensures
        r == (if free_samples / 2 < 4096 {
            free_samples / 2
        } else {
            4096
        }),
        2 * r <= free_samples,
{
    let free = free_samples / 2;
    if free < 4096 {
        free
    } else {
        4096
    }
}

/// What the regular player reports.
#[derive(Clone, Debug)]
pub struct RegularAudioInfo {
    pub loaded: bool,
    pub playing: bool,
    pub name: String,
    pub fmt: String,
}

/// The regular player's state besides its output sink: what it reports
/// and the playlist it repeats (non-empty once a `.pls` was loaded).
pub struct RegularPlayerState {
    pub info: RegularAudioInfo,
    pub playlist: Vec<String>,
}

impl RegularPlayerState {
    pub open spec fn is_idle(self) -> bool {
        &&& !self.info.loaded
        &&& !self.info.playing
        &&& self.info.name@ == Seq::<char>::empty()
        &&& self.info.fmt@ == Seq::<char>::empty()
        &&& self.playlist@.len() == 0
    }

    pub fn new() -> (r: RegularPlayerState)
        ensures
            r.is_idle(),
    {
        RegularPlayerState {
            info: RegularAudioInfo {
                loaded: false,
                playing: false,
                name: String::new(),
                fmt: String::new(),
            },
            playlist: Vec::new(),
        }
    }

    /// P with a sink present flips between playing and paused and returns
    /// the new state, which the caller applies to the sink; without a sink
    /// nothing changes.
    pub fn toggle_pause(&mut self, has_sink: bool) -> (r: Option<bool>)
        ensures
            has_sink ==> r == Some(!old(self).info.playing) && final(self).info.playing
                == !old(self).info.playing,
            !has_sink ==> r is None && final(self).info.playing == old(self).info.playing,
            final(self).info.loaded == old(self).info.loaded,
            final(self).info.name@ == old(self).info.name@,
            final(self).info.fmt@ == old(self).info.fmt@,
            final(self).playlist@ == old(self).playlist@,
    {
        if has_sink {
            self.info.playing = !self.info.playing;
            Some(self.info.playing)
        } else {
            None
        }
    }

    /// Stop: nothing loaded, no playlist.
    pub fn stop(&mut self)
        ensures
            final(self).is_idle(),
    {
        *self = RegularPlayerState::new();
    }

    /// A single file now plays (looping): its name and format are shown.
    /// The playlist of an earlier `.pls` is kept: it is only queued again
    /// when the sink runs dry, which a looping single file never does.
    pub fn file_loaded(&mut self, path: &str)
        ensures
            final(self).info.loaded,
            final(self).info.playing,
            final(self).info.name@ == display_name_spec(path@),
            final(self).info.fmt@ == format_label_spec(path@),
            final(self).playlist@ == old(self).playlist@,
    {
        self.info = RegularAudioInfo {
            loaded: true,
            playing: true,
            name: display_name(path),
            fmt: format_label(path),
        };
    }

    /// A playlist was queued: when at least one track could be opened it
    /// becomes the repeated playlist and is shown as `PLS`; otherwise the
    /// state is left as it was.  Returns whether it was taken.
    pub fn playlist_loaded(&mut self, paths: Vec<String>, title: String, opened: usize) -> (r: bool)
        ensures
            r == (opened > 0),
            !r ==> *final(self) == *old(self),
            r ==> {
                &&& final(self).info.loaded
                &&& final(self).info.playing
                &&& final(self).info.name@ == title@
                &&& final(self).info.fmt@ == "PLS"@
                &&& final(self).playlist@ == paths@
            },
    {
        if opened == 0 {
            return false;
        }
        self.playlist = paths;
        self.info = RegularAudioInfo {
            loaded: true,
            playing: true,
            name: title,
            fmt: "PLS".to_string(),
        };
        true
    }

    /// Whether the playlist must be queued again: it is playing and the
    /// sink has run dry.
    pub fn needs_replay(&self, has_sink: bool, sink_empty: bool) -> (r: bool)
        ensures
            r == (self.playlist@.len() > 0 && self.info.playing && has_sink && sink_empty),
    {
        self.playlist.len() > 0 && self.info.playing && has_sink && sink_empty
    }
}

} // verus!
