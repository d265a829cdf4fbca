//! The tuner's state: the list of settings, the selected one, its step-by-step
//! adjustment and direct typing of values.
//!
//! The fractional settings (scale, threshold, radii, gamma) are held by the
//! application; for them the tuner answers a [`Command`] saying what to do.

use vstd::prelude::*;
use crate::config::{
    bw_cycle, format_flags, parse_hex, shape_at, shape_index, shape_label, BwMode,
    DotShape, Format, Rgb,
};
use crate::keys::Key;
use crate::text::{chars_of, decimal, decimal_string, parse_i64, parse_i64_chars, string_from, trim, trim_chars};

verus! {

/// The number of settings.
pub const PARAM_COUNT: usize = 11;

/// The settings with a fractional value.
#[derive(Debug, Clone, Copy, PartialEq, Eq, Structural)]
pub enum FloatParam {
    /// Output scale (setting 1).
    Scale,
    /// Binarisation threshold (setting 3).
    Threshold,
    /// Minimal radius (setting 4).
    MinRadius,
    /// Maximal radius (setting 5).
    MaxRadius,
    /// Gamma (setting 6).
    Gamma,
}

/// The fractional setting at position `i`, if it is one.
pub open spec fn float_param(i: int) -> Option<FloatParam> {
    if i == 1 {
        Some(FloatParam::Scale)
    } else if i == 3 {
        Some(FloatParam::Threshold)
    } else if i == 4 {
        Some(FloatParam::MinRadius)
    } else if i == 5 {
        Some(FloatParam::MaxRadius)
    } else if i == 6 {
        Some(FloatParam::Gamma)
    } else {
        None
    }
}

fn float_param_at(i: usize) -> (res: Option<FloatParam>)
    ensures
        res == float_param(i as int),
{
    if i == 1 {
        Some(FloatParam::Scale)
    } else if i == 3 {
        Some(FloatParam::Threshold)
    } else if i == 4 {
        Some(FloatParam::MinRadius)
    } else if i == 5 {
        Some(FloatParam::MaxRadius)
    } else if i == 6 {
        Some(FloatParam::Gamma)
    } else {
        None
    }
}

/// Settings whose value can be typed: grid, scale, threshold, radii, gamma, background.
pub open spec fn is_typeable(i: int) -> bool {
    i == 0 || i == 1 || i == 3 || i == 4 || i == 5 || i == 6 || i == 9
}

/// What the application has to do after a key.
pub enum Command {
    Nothing,
    Quit,
    OpenBrowser,
    /// Render and write the files; report with [`Tuner::set_status`].
    Save,
    /// Move a fractional setting one step (`+1` or `-1`).
    StepFloat(FloatParam, i32),
    /// Start typing a fractional setting: hand its current text to [`Tuner::begin_edit`].
    BeginFloatEdit(FloatParam),
    /// Apply this typed text (already trimmed) to a fractional setting, then
    /// report with [`Tuner::finish_edit`].
    CommitFloatEdit(FloatParam, String),
}

/// A command, in plain values.
pub enum CommandView {
    Nothing,
    Quit,
    OpenBrowser,
    Save,
    StepFloat(FloatParam, int),
    BeginFloatEdit(FloatParam),
    CommitFloatEdit(FloatParam, Seq<char>),
}

pub open spec fn command_view(c: Command) -> CommandView {
    match c {
        Command::Nothing => CommandView::Nothing,
        Command::Quit => CommandView::Quit,
        Command::OpenBrowser => CommandView::OpenBrowser,
        Command::Save => CommandView::Save,
        Command::StepFloat(p, d) => CommandView::StepFloat(p, d as int),
        Command::BeginFloatEdit(p) => CommandView::BeginFloatEdit(p),
        Command::CommitFloatEdit(p, s) => CommandView::CommitFloatEdit(p, s@),
    }
}

// ---------------------------------------------------------------------------
// Background presets
// ---------------------------------------------------------------------------

/// The background presets offered by the tuner.
pub open spec fn presets() -> Seq<(Seq<char>, Rgb)> {
    seq![
        ("Noir"@, Rgb { r: 0, g: 0, b: 0 }),
        ("Blanc"@, Rgb { r: 255, g: 255, b: 255 }),
        ("Gris foncé"@, Rgb { r: 17, g: 17, b: 17 }),
        ("Ardoise"@, Rgb { r: 26, g: 27, b: 38 }),
        ("Bleu nuit"@, Rgb { r: 11, g: 19, b: 43 }),
        ("Crème"@, Rgb { r: 245, g: 240, b: 230 }),
    ]
}

/// The background presets offered by the tuner, as (name, colour).
pub fn bg_presets() -> (res: Vec<(&'static str, Rgb)>)
    ensures
        res@.len() == presets().len(),
        forall|k: int| 0 <= k < res@.len() ==> (#[trigger] res@[k]).0@ == presets()[k].0 && res@[k].1 == presets()[k].1,
{
    let mut v: Vec<(&'static str, Rgb)> = Vec::new();
    v.push(("Noir", Rgb { r: 0, g: 0, b: 0 }));
    v.push(("Blanc", Rgb { r: 255, g: 255, b: 255 }));
    v.push(("Gris foncé", Rgb { r: 17, g: 17, b: 17 }));
    v.push(("Ardoise", Rgb { r: 26, g: 27, b: 38 }));
    v.push(("Bleu nuit", Rgb { r: 11, g: 19, b: 43 }));
    v.push(("Crème", Rgb { r: 245, g: 240, b: 230 }));
    v
}

/// The first position of an option with colour `c`, or -1.
pub open spec fn color_position(opts: Seq<(Seq<char>, Rgb)>, c: Rgb) -> int
    decreases opts.len(),
{
    if opts.len() == 0 {
        -1
    } else if opts[0].1 == c {
        0
    } else {
        let r = color_position(opts.drop_first(), c);
        if r < 0 {
            -1
        } else {
            r + 1
        }
    }
}

/// The background options for a starting colour: the presets, preceded by
/// `Perso` with that colour when it is not one of them.
pub open spec fn options_for(bg: Rgb) -> Seq<(Seq<char>, Rgb)> {
    if color_position(presets(), bg) >= 0 {
        presets()
    } else {
        seq![("Perso"@, bg)] + presets()
    }
}

pub open spec fn option_views(v: Seq<(String, Rgb)>) -> Seq<(Seq<char>, Rgb)> {
    v.map_values(|o: (String, Rgb)| (o.0@, o.1))
}

fn find_color(opts: &Vec<(String, Rgb)>, c: Rgb) -> (res: Option<usize>)
    ensures
        match res {
            Some(i) => i == color_position(option_views(opts@), c) && i < opts@.len(),
            None => color_position(option_views(opts@), c) == -1,
        },
{
    let ghost all = option_views(opts@);
    let mut i: usize = 0;
    assert(all.skip(0) =~= all);
    while i < opts.len()
        invariant
            i <= opts@.len(),
            all == option_views(opts@),
            forall|k: int| 0 <= k < i ==> all[k].1 != c,
            color_position(all, c) == if color_position(all.skip(i as int), c) < 0 {
                -1
            } else {
                i + color_position(all.skip(i as int), c)
            },
        decreases opts@.len() - i,
    {
        if opts[i].1 == c {
            assert(all.skip(i as int)[0] == all[i as int]);
            return Some(i);
        }
        assert(all.skip(i as int).drop_first() =~= all.skip(i + 1));
        i = i + 1;
    }
    None
}

proof fn lemma_color_position_bounds(opts: Seq<(Seq<char>, Rgb)>, c: Rgb)
    ensures
        -1 <= color_position(opts, c) < opts.len(),
        color_position(opts, c) >= 0 ==> opts[color_position(opts, c)].1 == c,
    decreases opts.len(),
{
    if opts.len() > 0 {
        lemma_color_position_bounds(opts.drop_first(), c);
    }
}

// ---------------------------------------------------------------------------
// Labels
// ---------------------------------------------------------------------------

/// The caption of setting `i`.
pub open spec fn param_label(i: int) -> Seq<char> {
    if i == 0 {
        "Grille (points/largeur)"@
    } else if i == 1 {
        "Échelle de sortie"@
    } else if i == 2 {
        "Noir & blanc"@
    } else if i == 3 {
        "Seuil (binarisation)"@
    } else if i == 4 {
        "Rayon min"@
    } else if i == 5 {
        "Rayon max"@
    } else if i == 6 {
        "Gamma (luminosité)"@
    } else if i == 7 {
        "Inverser taille"@
    } else if i == 8 {
        "Forme"@
    } else if i == 9 {
        "Fond"@
    } else if i == 10 {
        "Format de sortie"@
    } else {
        ""@
    }
}

/// The caption of setting `i`.
pub fn label(i: usize) -> (res: &'static str)
    ensures
        res@ == param_label(i as int),
{
    if i == 0 {
        "Grille (points/largeur)"
    } else if i == 1 {
        "Échelle de sortie"
    } else if i == 2 {
        "Noir & blanc"
    } else if i == 3 {
        "Seuil (binarisation)"
    } else if i == 4 {
        "Rayon min"
    } else if i == 5 {
        "Rayon max"
    } else if i == 6 {
        "Gamma (luminosité)"
    } else if i == 7 {
        "Inverser taille"
    } else if i == 8 {
        "Forme"
    } else if i == 9 {
        "Fond"
    } else if i == 10 {
        "Format de sortie"
    } else {
        ""
    }
}

/// How a black & white mode is shown.
pub open spec fn bw_text(m: BwMode) -> Seq<char> {
    match m {
        BwMode::Color => "non (couleur)"@,
        BwMode::Grayscale => "niveaux de gris"@,
        BwMode::Threshold => "seuil"@,
    }
}

/// How the output switches are shown.
pub open spec fn format_text(png: bool, svg: bool) -> Seq<char> {
    if png && svg {
        "png + svg"@
    } else if !png && svg {
        "svg"@
    } else {
        "png"@
    }
}

// ---------------------------------------------------------------------------
// Cycling
// ---------------------------------------------------------------------------

/// `v` kept between `lo` and `hi`.
pub open spec fn clamp(v: int, lo: int, hi: int) -> int {
    if v < lo {
        lo
    } else if v > hi {
        hi
    } else {
        v
    }
}

/// The position of the output switches in the cycle png → svg → png + svg.
pub open spec fn format_index(png: bool, svg: bool) -> int {
    if png && !svg {
        0
    } else if !png && svg {
        1
    } else {
        2
    }
}

/// The output switches at position `k` of that cycle.
pub open spec fn format_at(k: int) -> (bool, bool) {
    if k == 0 {
        (true, false)
    } else if k == 1 {
        (false, true)
    } else {
        (true, true)
    }
}

// ---------------------------------------------------------------------------
// The tuner
// ---------------------------------------------------------------------------

/// The tuner's state, without the fractional settings.
pub struct Tuner {
    /// The selected setting (0 to 10).
    pub selected: usize,
    /// Dots across the width.
    pub cols: u32,
    pub bw: BwMode,
    /// Dark means big instead of light means big.
    pub invert: bool,
    pub shape: DotShape,
    pub background: Rgb,
    pub png: bool,
    pub svg: bool,
    /// Named backgrounds to cycle through.
    pub bg_options: Vec<(String, Rgb)>,
    pub bg_index: usize,
    /// The preview shows an enlarged centre crop.
    pub zoom: bool,
    /// The preview must be rendered again.
    pub dirty: bool,
    /// A value is being typed for the selected setting.
    pub editing: bool,
    pub edit_buf: String,
    pub status: String,
}

/// The plain contents of a [`Tuner`].
pub struct TunerView {
    pub selected: int,
    pub cols: u32,
    pub bw: BwMode,
    pub invert: bool,
    pub shape: DotShape,
    pub background: Rgb,
    pub png: bool,
    pub svg: bool,
    pub bg_options: Seq<(Seq<char>, Rgb)>,
    pub bg_index: int,
    pub zoom: bool,
    pub dirty: bool,
    pub editing: bool,
    pub edit_buf: Seq<char>,
    pub status: Seq<char>,
}

impl View for Tuner {
    type V = TunerView;

    open spec fn view(&self) -> TunerView {
        TunerView {
            selected: self.selected as int,
            cols: self.cols,
            bw: self.bw,
            invert: self.invert,
            shape: self.shape,
            background: self.background,
            png: self.png,
            svg: self.svg,
            bg_options: option_views(self.bg_options@),
            bg_index: self.bg_index as int,
            zoom: self.zoom,
            dirty: self.dirty,
            editing: self.editing,
            edit_buf: self.edit_buf@,
            status: self.status@,
        }
    }
}

impl TunerView {
    /// The selection is a setting, the background index is an option, and
    /// only a typeable setting is ever being typed.
    pub open spec fn wf(self) -> bool {
        &&& 0 <= self.selected < PARAM_COUNT
        &&& 0 <= self.bg_index < self.bg_options.len()
        &&& self.editing ==> is_typeable(self.selected)
    }
}

/// The status shown when a typed value cannot be read.
pub open spec fn invalid_value_text() -> Seq<char> {
    "valeur invalide"@
}

/// One step (`dir` is +1 or -1) of the selected setting. The preview becomes
/// stale in every case.
///
/// Grid: ±4, kept within 2..=600. Black & white, shape, background and output
/// cycle forward or backward (output: png → svg → png + svg). Inversion
/// toggles. A fractional setting is stepped by the application.
pub open spec fn adjusted(v: TunerView, dir: int) -> (TunerView, CommandView) {
    let s = v.selected;
    let w = if s == 0 {
        TunerView { cols: clamp(v.cols + 4 * dir, 2, 600) as u32, ..v }
    } else if s == 2 {
        TunerView { bw: bw_cycle(v.bw, dir >= 0), ..v }
    } else if s == 7 {
        TunerView { invert: !v.invert, ..v }
    } else if s == 8 {
        TunerView { shape: shape_at((shape_index(v.shape) + dir) % 4), ..v }
    } else if s == 9 {
        let k = (v.bg_index + dir) % (v.bg_options.len() as int);
        TunerView { bg_index: k, background: v.bg_options[k].1, ..v }
    } else if s == 10 {
        let f = format_at((format_index(v.png, v.svg) + dir) % 3);
        TunerView { png: f.0, svg: f.1, ..v }
    } else {
        v
    };
    (
        TunerView { dirty: true, ..w },
        match float_param(s) {
            Some(p) => CommandView::StepFloat(p, dir),
            None => CommandView::Nothing,
        },
    )
}

/// Starting to type the selected setting: the grid and the background are
/// pre-filled with their current text; a fractional setting is pre-filled by
/// the application.
pub open spec fn edit_started(v: TunerView) -> (TunerView, CommandView) {
    if v.selected == 0 {
        (TunerView { edit_buf: decimal(v.cols as nat), editing: true, ..v }, CommandView::Nothing)
    } else if v.selected == 9 {
        (
            TunerView { edit_buf: crate::config::hex_of(v.background), editing: true, ..v },
            CommandView::Nothing,
        )
    } else {
        match float_param(v.selected) {
            Some(p) => (v, CommandView::BeginFloatEdit(p)),
            None => (v, CommandView::Nothing),
        }
    }
}

/// `v` after the outcome of typing: a good value makes the preview stale, a
/// bad one says so in the status line.
pub open spec fn edit_reported(v: TunerView, ok: bool) -> TunerView {
    if ok {
        TunerView { dirty: true, ..v }
    } else {
        TunerView { status: invalid_value_text(), ..v }
    }
}

/// Validating the typed text (trimmed). Grid: a decimal integer, kept within
/// 2..=600. Background: a hex colour, which also selects the first option of
/// that colour. A fractional setting is read by the application. Typing ends.
pub open spec fn edit_committed(v: TunerView) -> (TunerView, CommandView) {
    let t = trim(v.edit_buf);
    let done = TunerView { editing: false, edit_buf: Seq::empty(), ..v };
    if v.selected == 0 {
        match parse_i64(t) {
            Some(n) => (
                edit_reported(TunerView { cols: clamp(n as int, 2, 600) as u32, ..done }, true),
                CommandView::Nothing,
            ),
            None => (edit_reported(done, false), CommandView::Nothing),
        }
    } else if v.selected == 9 {
        match parse_hex(t) {
            Some(c) => {
                let k = color_position(v.bg_options, c);
                (
                    edit_reported(
                        TunerView {
                            background: c,
                            bg_index: if k >= 0 {
                                k
                            } else {
                                v.bg_index
                            },
                            ..done
                        },
                        true,
                    ),
                    CommandView::Nothing,
                )
            },
            None => (edit_reported(done, false), CommandView::Nothing),
        }
    } else {
        match float_param(v.selected) {
            Some(p) => (done, CommandView::CommitFloatEdit(p, t)),
            None => (edit_reported(done, true), CommandView::Nothing),
        }
    }
}

/// What a key does.
///
/// While typing: Enter validates, Esc abandons, Backspace removes the last
/// character, a character is added.
///
/// Otherwise: `q`/Esc quit, `o` opens the browser, ↑/`k` and ↓/`j` select the
/// previous or next setting (wrapping), ←/`h` and →/`l` step the setting,
/// Enter types a typeable setting or steps any other, space steps, `z`
/// toggles the zoom, `s` saves.
pub open spec fn key_step(v: TunerView, key: Key) -> (TunerView, CommandView) {
    if v.editing {
        match key {
            Key::Enter => edit_committed(v),
            Key::Esc => (TunerView { editing: false, edit_buf: Seq::empty(), ..v }, CommandView::Nothing),
            Key::Backspace => (
                TunerView {
                    edit_buf: if v.edit_buf.len() > 0 {
                        v.edit_buf.drop_last()
                    } else {
                        v.edit_buf
                    },
                    ..v
                },
                CommandView::Nothing,
            ),
            Key::Char(c) => (TunerView { edit_buf: v.edit_buf.push(c), ..v }, CommandView::Nothing),
            _ => (v, CommandView::Nothing),
        }
    } else {
        match key {
            Key::Char('q') | Key::Esc => (v, CommandView::Quit),
            Key::Char('o') => (v, CommandView::OpenBrowser),
            Key::Up | Key::Char('k') => (
                TunerView { selected: (v.selected + PARAM_COUNT - 1) % (PARAM_COUNT as int), ..v },
                CommandView::Nothing,
            ),
            Key::Down | Key::Char('j') => (
                TunerView { selected: (v.selected + 1) % (PARAM_COUNT as int), ..v },
                CommandView::Nothing,
            ),
            Key::Left | Key::Char('h') => adjusted(v, -1),
            Key::Right | Key::Char('l') => adjusted(v, 1),
            Key::Enter => if is_typeable(v.selected) {
                edit_started(v)
            } else {
                adjusted(v, 1)
            },
            Key::Char(' ') => adjusted(v, 1),
            Key::Char('z') => (TunerView { zoom: !v.zoom, dirty: true, ..v }, CommandView::Nothing),
            Key::Char('s') => (v, CommandView::Save),
            _ => (v, CommandView::Nothing),
        }
    }
}

/// The grid stepped by four dots in direction `dir`, kept within 2..=600.
fn step_cols(cols: u32, dir: i32) -> (res: u32)
    requires
        dir == 1 || dir == -1,
    ensures
        res == clamp(cols + 4 * dir, 2, 600),
{
    let stepped: i64 = cols as i64 + 4 * dir as i64;
    let c: i64 = if stepped < 2 {
        2
    } else if stepped > 600 {
        600
    } else {
        stepped
    };
    c as u32
}

/// Position `k` moved by `dir` in a cycle of `n` positions.
fn cycle_index(k: usize, n: usize, dir: i32) -> (res: usize)
    requires
        k < n,
        dir == 1 || dir == -1,
    ensures
        res == (k + dir) % (n as int),
        res < n,
{
    if dir > 0 {
        (k + 1) % n
    } else if k == 0 {
        assert((0int - 1) % (n as int) == n - 1) by {
            vstd::arithmetic::div_mod::lemma_mod_add_multiples_vanish(-1, n as int);
            vstd::arithmetic::div_mod::lemma_small_mod((n - 1) as nat, n as nat);
        }
        n - 1
    } else {
        assert((k - 1) % (n as int) == k - 1) by {
            vstd::arithmetic::div_mod::lemma_small_mod((k - 1) as nat, n as nat);
        }
        k - 1
    }
}

/// The output switches one step along png → svg → png + svg.
fn cycle_format(png: bool, svg: bool, dir: i32) -> (res: (bool, bool))
    requires
        dir == 1 || dir == -1,
    ensures
        res == format_at((format_index(png, svg) + dir) % 3),
{
    let cur: usize = if png && !svg {
        0
    } else if !png && svg {
        1
    } else {
        2
    };
    let next = cycle_index(cur, 3, dir);
    if next == 0 {
        (true, false)
    } else if next == 1 {
        (false, true)
    } else {
        (true, true)
    }
}

impl Tuner {
    /// A tuner for these settings; the first setting is selected, the preview
    /// is to be rendered.
    pub fn new(
        cols: u32,
        bw: BwMode,
        invert: bool,
        shape: DotShape,
        background: Rgb,
        png: bool,
        svg: bool,
    ) -> (res: Tuner)
        ensures
            res@ == (TunerView {
                selected: 0,
                cols,
                bw,
                invert,
                shape,
                background,
                png,
                svg,
                bg_options: options_for(background),
                bg_index: if color_position(presets(), background) >= 0 {
                    color_position(presets(), background)
                } else {
                    0
                },
                zoom: false,
                dirty: true,
                editing: false,
                edit_buf: Seq::empty(),
                status: "Prêt. Réglez, puis « s » pour sauvegarder."@,
            }),
            res@.wf(),
    {
        let presets_vec = bg_presets();
        let mut opts: Vec<(String, Rgb)> = Vec::new();
        let mut i: usize = 0;
        while i < presets_vec.len()
            invariant
                i <= presets_vec@.len() == presets().len(),
                forall|k: int| 0 <= k < presets_vec@.len() ==> (#[trigger] presets_vec@[k]).0@ == presets()[k].0 && presets_vec@[k].1 == presets()[k].1,
                option_views(opts@) == presets().take(i as int),
            decreases presets_vec@.len() - i,
        {
            let (name, c) = presets_vec[i];
            let ghost before = option_views(opts@);
            let owned = <String as vstd::string::StringExecFns>::from_str(name);
            assert(owned@ == presets()[i as int].0);
            opts.push((owned, c));
            assert(option_views(opts@) =~= before.push((owned@, c)));
            assert(presets().take(i + 1) =~= presets().take(i as int).push(presets()[i as int]));
            assert(option_views(opts@) =~= presets().take(i + 1));
            i = i + 1;
        }
        assert(presets().take(6) =~= presets());
        proof {
            lemma_color_position_bounds(presets(), background);
        }
        let bg_index = match find_color(&opts, background) {
            Some(k) => k,
            None => {
                let ghost before = option_views(opts@);
                opts.insert(0, (<String as vstd::string::StringExecFns>::from_str("Perso"), background));
                assert(option_views(opts@) =~= seq![("Perso"@, background)] + before);
                0
            },
        };
        Tuner {
            selected: 0,
            cols,
            bw,
            invert,
            shape,
            background,
            png,
            svg,
            bg_options: opts,
            bg_index,
            zoom: false,
            dirty: true,
            editing: false,
            edit_buf: String::new(),
            status: <String as vstd::string::StringExecFns>::from_str(
                "Prêt. Réglez, puis « s » pour sauvegarder.",
            ),
        }
    }

    /// Replaces the status line.
    pub fn set_status(&mut self, s: String)
        ensures
            final(self)@ == (TunerView { status: s@, ..old(self)@ }),
    {
        self.status = s;
    }

    /// Starts typing the selected (fractional) setting from `text`.
    pub fn begin_edit(&mut self, text: String)
        requires
            old(self)@.wf(),
            is_typeable(old(self)@.selected),
        ensures
            final(self)@ == (TunerView { edit_buf: text@, editing: true, ..old(self)@ }),
            final(self)@.wf(),
    {
        self.edit_buf = text;
        self.editing = true;
    }

    /// Reports whether the typed fractional value was read.
    pub fn finish_edit(&mut self, ok: bool)
        ensures
            final(self)@ == edit_reported(old(self)@, ok),
    {
        if ok {
            self.dirty = true;
        } else {
            self.status = <String as vstd::string::StringExecFns>::from_str("valeur invalide");
        }
    }

    /// Steps the selected setting by `dir` (see [`adjusted`]).
    pub fn adjust(&mut self, dir: i32) -> (res: Command)
        requires
            old(self)@.wf(),
            dir == 1 || dir == -1,
        ensures
            (final(self)@, command_view(res)) == adjusted(old(self)@, dir as int),
            final(self)@.wf(),
    {
        let s = self.selected;
        if s == 0 {
            self.cols = step_cols(self.cols, dir);
        } else if s == 2 {
            self.bw = self.bw.cycle(dir >= 0);
        } else if s == 7 {
            self.invert = !self.invert;
        } else if s == 8 {
            let next = cycle_index(self.shape.index(), 4, dir);
            self.shape = DotShape::from_index(next);
        } else if s == 9 {
            let k = cycle_index(self.bg_index, self.bg_options.len(), dir);
            self.bg_index = k;
            self.background = self.bg_options[k].1;
        } else if s == 10 {
            let (png, svg) = cycle_format(self.png, self.svg, dir);
            self.png = png;
            self.svg = svg;
        }
        self.dirty = true;
        match float_param_at(s) {
            Some(p) => Command::StepFloat(p, dir),
            None => Command::Nothing,
        }
    }

    fn start_edit(&mut self) -> (res: Command)
        requires
            old(self)@.wf(),
            is_typeable(old(self)@.selected),
        ensures
            (final(self)@, command_view(res)) == edit_started(old(self)@),
            final(self)@.wf(),
    {
        if self.selected == 0 {
            self.edit_buf = decimal_string(self.cols as u64);
            self.editing = true;
            Command::Nothing
        } else if self.selected == 9 {
            self.edit_buf = self.background.to_hex();
            self.editing = true;
            Command::Nothing
        } else {
            match float_param_at(self.selected) {
                Some(p) => Command::BeginFloatEdit(p),
                None => Command::Nothing,
            }
        }
    }

    fn commit_edit(&mut self) -> (res: Command)
        requires
            old(self)@.wf(),
        ensures
            (final(self)@, command_view(res)) == edit_committed(old(self)@),
            final(self)@.wf(),
    {
        let cs = chars_of(self.edit_buf.as_str());
        let t = trim_chars(cs.as_slice());
        self.editing = false;
        self.edit_buf = String::new();
        if self.selected == 0 {
            match parse_i64_chars(t.as_slice()) {
                Some(n) => {
                    let c: i64 = if n < 2 {
                        2
                    } else if n > 600 {
                        600
                    } else {
                        n
                    };
                    self.cols = c as u32;
                    self.finish_edit(true);
                },
                None => self.finish_edit(false),
            }
            Command::Nothing
        } else if self.selected == 9 {
            let text = string_from(t.as_slice());
            match Rgb::parse_hex(text.as_str()) {
                Ok(c) => {
                    self.background = c;
                    match find_color(&self.bg_options, c) {
                        Some(k) => {
                            self.bg_index = k;
                        },
                        None => {},
                    }
                    self.finish_edit(true);
                },
                Err(_) => self.finish_edit(false),
            }
            Command::Nothing
        } else {
            match float_param_at(self.selected) {
                Some(p) => Command::CommitFloatEdit(p, string_from(t.as_slice())),
                None => {
                    self.finish_edit(true);
                    Command::Nothing
                },
            }
        }
    }

    /// Handles a key press (see [`key_step`]).
    pub fn handle_key(&mut self, key: Key) -> (res: Command)
        requires
            old(self)@.wf(),
        ensures
            (final(self)@, command_view(res)) == key_step(old(self)@, key),
            final(self)@.wf(),
    {
        if self.editing {
            match key {
                Key::Enter => {
                    return self.commit_edit();
                },
                Key::Esc => {
                    self.editing = false;
                    self.edit_buf = String::new();
                },
                Key::Backspace => {
                    self.edit_buf.pop();
                },
                Key::Char(c) => {
                    self.edit_buf.push(c);
                },
                _ => {},
            }
            return Command::Nothing;
        }
        match key {
            Key::Char('q') | Key::Esc => Command::Quit,
            Key::Char('o') => Command::OpenBrowser,
            Key::Up | Key::Char('k') => {
                self.selected = (self.selected + PARAM_COUNT - 1) % PARAM_COUNT;
                Command::Nothing
            },
            Key::Down | Key::Char('j') => {
                self.selected = (self.selected + 1) % PARAM_COUNT;
                Command::Nothing
            },
            Key::Left | Key::Char('h') => self.adjust(-1),
            Key::Right | Key::Char('l') => self.adjust(1),
            Key::Enter => {
                let s = self.selected;
                if s == 0 || s == 1 || s == 3 || s == 4 || s == 5 || s == 6 || s == 9 {
                    self.start_edit()
                } else {
                    self.adjust(1)
                }
            },
            Key::Char(' ') => self.adjust(1),
            Key::Char('z') => {
                self.zoom = !self.zoom;
                self.dirty = true;
                Command::Nothing
            },
            Key::Char('s') => Command::Save,
            _ => Command::Nothing,
        }
    }
}

/// The text shown for setting `i`: the typed text with a cursor while it is
/// being typed; `None` for a fractional setting, which the application shows.
pub open spec fn value_text(v: TunerView, i: int) -> Option<Seq<char>> {
    if v.editing && i == v.selected {
        Some(v.edit_buf + "▏"@)
    } else if i == 0 {
        Some(decimal(v.cols as nat))
    } else if i == 2 {
        Some(bw_text(v.bw))
    } else if i == 7 {
        Some(
            if v.invert {
                "oui"@
            } else {
                "non"@
            },
        )
    } else if i == 8 {
        Some(shape_label(v.shape))
    } else if i == 9 {
        let k = color_position(v.bg_options, v.background);
        Some(
            if k >= 0 {
                v.bg_options[k].0
            } else {
                crate::config::hex_of(v.background)
            },
        )
    } else if i == 10 {
        Some(format_text(v.png, v.svg))
    } else if float_param(i) is Some {
        None
    } else {
        Some(""@)
    }
}

fn static_string(s: &str) -> (res: String)
    ensures
        res@ == s@,
{
    <String as vstd::string::StringExecFns>::from_str(s)
}

impl Tuner {
    /// The text shown for setting `i` (see [`value_text`]).
    pub fn value(&self, i: usize) -> (res: Option<String>)
        ensures
            match res {
                Some(t) => value_text(self@, i as int) == Some(t@),
                None => value_text(self@, i as int) is None,
            },
    {
        if self.editing && i == self.selected {
            return Some(crate::text::concat_str(self.edit_buf.as_str(), "▏"));
        }
        if i == 0 {
            Some(decimal_string(self.cols as u64))
        } else if i == 2 {
            Some(
                static_string(
                    match self.bw {
                        BwMode::Color => "non (couleur)",
                        BwMode::Grayscale => "niveaux de gris",
                        BwMode::Threshold => "seuil",
                    },
                ),
            )
        } else if i == 7 {
            Some(
                static_string(
                    if self.invert {
                        "oui"
                    } else {
                        "non"
                    },
                ),
            )
        } else if i == 8 {
            Some(static_string(self.shape.label()))
        } else if i == 9 {
            match find_color(&self.bg_options, self.background) {
                Some(k) => {
                    assert(option_views(self.bg_options@)[k as int].0 == self.bg_options@[k as int].0@);
                    Some(self.bg_options[k].0.clone())
                },
                None => Some(self.background.to_hex()),
            }
        } else if i == 10 {
            Some(
                static_string(
                    if self.png && self.svg {
                        "png + svg"
                    } else if !self.png && self.svg {
                        "svg"
                    } else {
                        "png"
                    },
                ),
            )
        } else if float_param_at(i).is_some() {
            None
        } else {
            proof {
                reveal_strlit("");
            }
            Some(String::new())
        }
    }
}

// ---------------------------------------------------------------------------
// Laws
// ---------------------------------------------------------------------------

/// Each fractional setting handed to the application is the one its row is
/// labelled with: the scale at "Échelle de sortie", the threshold at "Seuil
/// (binarisation)", the minimal radius at "Rayon min", the maximal radius at
/// "Rayon max", the gamma at "Gamma (luminosité)"; no other row hands one out.
pub proof fn lemma_float_settings_named(i: int)
    ensures
        float_param(i) == Some(FloatParam::Scale) <==> param_label(i) == "Échelle de sortie"@,
        float_param(i) == Some(FloatParam::Threshold) <==> param_label(i)
            == "Seuil (binarisation)"@,
        float_param(i) == Some(FloatParam::MinRadius) <==> param_label(i) == "Rayon min"@,
        float_param(i) == Some(FloatParam::MaxRadius) <==> param_label(i) == "Rayon max"@,
        float_param(i) == Some(FloatParam::Gamma) <==> param_label(i) == "Gamma (luminosité)"@,
{
    reveal_strlit("Grille (points/largeur)");
    reveal_strlit("Échelle de sortie");
    reveal_strlit("Noir & blanc");
    reveal_strlit("Seuil (binarisation)");
    reveal_strlit("Rayon min");
    reveal_strlit("Rayon max");
    reveal_strlit("Gamma (luminosité)");
    reveal_strlit("Inverser taille");
    reveal_strlit("Forme");
    reveal_strlit("Fond");
    reveal_strlit("Format de sortie");
    reveal_strlit("");
    assert("Grille (points/largeur)"@.len() == 23);
    assert("Échelle de sortie"@.len() == 17);
    assert("Noir & blanc"@.len() == 12);
    assert("Seuil (binarisation)"@.len() == 20);
    assert("Gamma (luminosité)"@.len() == 18);
    assert("Inverser taille"@.len() == 15);
    assert("Forme"@.len() == 5);
    assert("Fond"@.len() == 4);
    assert("Format de sortie"@.len() == 16);
    assert(""@.len() == 0);
    assert("Rayon min"@.len() == 9 && "Rayon min"@[7] == 'i');
    assert("Rayon max"@.len() == 9 && "Rayon max"@[7] == 'a');
}

/// `k` steps of the selected setting in direction `dir`.
pub open spec fn stepped(v: TunerView, dir: int, k: nat) -> TunerView
    decreases k,
{
    if k == 0 {
        v
    } else {
        adjusted(stepped(v, dir, (k - 1) as nat), dir).0
    }
}

/// Stepping the output setting forward visits png, svg and png + svg, never
/// neither, and comes back to the start after three steps.
pub proof fn lemma_format_cycle(v: TunerView)
    requires
        v.selected == 10,
        v.png || v.svg,
    ensures
        ({
            let a = stepped(v, 1, 1);
            let b = stepped(v, 1, 2);
            let c = stepped(v, 1, 3);
            &&& a.png || a.svg
            &&& b.png || b.svg
            &&& (a.png, a.svg) != (v.png, v.svg)
            &&& (b.png, b.svg) != (v.png, v.svg)
            &&& (a.png, a.svg) != (b.png, b.svg)
            &&& (c.png, c.svg) == (v.png, v.svg)
        }),
{
    reveal_with_fuel(stepped, 4);
}

/// Three steps of the black & white setting, in either direction, come back
/// to the start.
pub proof fn lemma_bw_cycle(v: TunerView, dir: int)
    requires
        v.selected == 2,
        dir == 1 || dir == -1,
    ensures
        stepped(v, dir, 3).bw == v.bw,
{
    reveal_with_fuel(stepped, 4);
}

proof fn lemma_shape_steps(v: TunerView, dir: int, k: nat)
    requires
        v.selected == 8,
        dir == 1 || dir == -1,
    ensures
        stepped(v, dir, k).shape == shape_at((shape_index(v.shape) + dir * k) % 4),
        stepped(v, dir, k).selected == 8,
    decreases k,
{
    if k == 0 {
        let i = shape_index(v.shape);
        assert(i % 4 == i);
    } else {
        lemma_shape_steps(v, dir, (k - 1) as nat);
        let i = shape_index(v.shape);
        let prev = (i + dir * (k - 1)) % 4;
        assert(shape_index(shape_at(prev)) == prev);
        assert((prev + dir) % 4 == (i + dir * k) % 4) by {
            vstd::arithmetic::div_mod::lemma_add_mod_noop_right(dir, i + dir * (k - 1), 4);
            assert(dir + (i + dir * (k - 1)) == i + dir * k) by (nonlinear_arith);
        }
    }
}

/// After `k` steps of the shape setting the shape is `k` places further (or
/// back) in the cycle of four; four steps come back to the start.
pub proof fn lemma_shape_cycle(v: TunerView, dir: int, k: nat)
    requires
        v.selected == 8,
        dir == 1 || dir == -1,
    ensures
        stepped(v, dir, k).shape == shape_at((shape_index(v.shape) + dir * k) % 4),
        stepped(v, dir, 4).shape == v.shape,
{
    lemma_shape_steps(v, dir, k);
    lemma_shape_steps(v, dir, 4);
    let i = shape_index(v.shape);
    let e = i + dir * 4;
    assert(e == 4 * dir + i);
    assert(e % 4 == i) by {
        vstd::arithmetic::div_mod::lemma_mod_multiples_vanish(dir, i, 4);
    }
    assert(shape_at(i) == v.shape);
}

proof fn lemma_bg_steps(v: TunerView, dir: int, k: nat)
    requires
        v.wf(),
        v.selected == 9,
        dir == 1 || dir == -1,
    ensures
        stepped(v, dir, k).bg_index == (v.bg_index + dir * k) % (v.bg_options.len() as int),
        stepped(v, dir, k).background == v.bg_options[stepped(v, dir, k).bg_index].1 || k == 0,
        stepped(v, dir, k).bg_options == v.bg_options,
        stepped(v, dir, k).selected == 9,
    decreases k,
{
    let n = v.bg_options.len() as int;
    if k == 0 {
        vstd::arithmetic::div_mod::lemma_small_mod(v.bg_index as nat, n as nat);
    } else {
        lemma_bg_steps(v, dir, (k - 1) as nat);
        let prev = (v.bg_index + dir * (k - 1)) % n;
        assert((prev + dir) % n == (v.bg_index + dir * k) % n) by {
            vstd::arithmetic::div_mod::lemma_add_mod_noop_right(dir, v.bg_index + dir * (k - 1), n);
            assert(dir + (v.bg_index + dir * (k - 1)) == v.bg_index + dir * k) by (nonlinear_arith);
        }
    }
}

/// After `k` steps of the background setting the background is the option
/// `k` places further (or back), wrapping around; stepping as many times as
/// there are options comes back to the start.
pub proof fn lemma_bg_cycle(v: TunerView, dir: int, k: nat)
    requires
        v.wf(),
        v.selected == 9,
        dir == 1 || dir == -1,
    ensures
        stepped(v, dir, k).bg_index == (v.bg_index + dir * k) % (v.bg_options.len() as int),
        k > 0 ==> stepped(v, dir, k).background == v.bg_options[stepped(v, dir, k).bg_index].1,
        stepped(v, dir, v.bg_options.len()).bg_index == v.bg_index,
{
    let n = v.bg_options.len() as int;
    lemma_bg_steps(v, dir, k);
    lemma_bg_steps(v, dir, v.bg_options.len());
    vstd::arithmetic::div_mod::lemma_mod_multiples_vanish(dir, v.bg_index, n);
    assert(n * dir + v.bg_index == v.bg_index + dir * n) by (nonlinear_arith);
    vstd::arithmetic::div_mod::lemma_small_mod(v.bg_index as nat, n as nat);
}

/// A step changes only the selected setting and marks the preview stale:
/// every other setting, the selection, the zoom, the typing state, the status
/// line and the background options keep their values. A fractional setting
/// is handed to the application as a step command, and a step on a row past
/// the last setting changes no setting.
pub proof fn lemma_adjust_touches_own_setting(v: TunerView, dir: int)
    ensures
        ({
            let (w, cmd) = adjusted(v, dir);
            let s = v.selected;
            &&& w.dirty
            &&& w.selected == v.selected
            &&& w.zoom == v.zoom
            &&& w.editing == v.editing
            &&& w.edit_buf == v.edit_buf
            &&& w.status == v.status
            &&& w.bg_options == v.bg_options
            &&& (s != 0 ==> w.cols == v.cols)
            &&& (s != 2 ==> w.bw == v.bw)
            &&& (s != 7 ==> w.invert == v.invert)
            &&& (s != 8 ==> w.shape == v.shape)
            &&& (s != 9 ==> w.background == v.background && w.bg_index == v.bg_index)
            &&& (s != 10 ==> w.png == v.png && w.svg == v.svg)
            &&& (float_param(s) matches Some(p) ==> cmd == CommandView::StepFloat(p, dir))
            &&& (float_param(s) is None ==> cmd == CommandView::Nothing)
        }),
{
}

/// Stepping the grid keeps it within 2..=600.
pub proof fn lemma_cols_in_range(v: TunerView, dir: int)
    requires
        v.selected == 0,
    ensures
        2 <= adjusted(v, dir).0.cols <= 600,
{
}

/// Selecting the next setting and then the previous one comes back.
pub proof fn lemma_select_down_up(v: TunerView)
    requires
        v.wf(),
        !v.editing,
    ensures
        key_step(key_step(v, Key::Down).0, Key::Up).0 == v,
        key_step(key_step(v, Key::Up).0, Key::Down).0 == v,
{
    let d = key_step(v, Key::Down).0;
    assert(d.selected == (v.selected + 1) % 11);
    let u = key_step(v, Key::Up).0;
    assert(u.selected == (v.selected + 10) % 11);
    assert(key_step(d, Key::Up).0 =~= v);
    assert(key_step(u, Key::Down).0 =~= v);
}

/// Starting to type the grid or the background and validating it unchanged
/// keeps the value (the grid when it is within 2..=600).
pub proof fn lemma_edit_unchanged(v: TunerView)
    requires
        v.wf(),
        !v.editing,
        v.selected == 0 ==> 2 <= v.cols <= 600,
        v.selected == 0 || v.selected == 9,
    ensures
        ({
            let a = key_step(v, Key::Enter).0;
            let b = key_step(a, Key::Enter).0;
            &&& b.cols == v.cols
            &&& b.background == v.background
            &&& !b.editing
            &&& b.dirty
        }),
{
    if v.selected == 0 {
        crate::text::lemma_decimal_round_trip(v.cols as nat);
    } else {
        crate::config::lemma_hex_round_trip(v.background);
    }
}

/// Validating a typed grid or background that cannot be read leaves the
/// setting as it was, ends the typing and says so in the status line.
pub proof fn lemma_invalid_edit_ignored(v: TunerView)
    requires
        v.editing,
        v.selected == 0 && parse_i64(trim(v.edit_buf)) is None || v.selected == 9 && parse_hex(
            trim(v.edit_buf),
        ) is None,
    ensures
        ({
            let w = key_step(v, Key::Enter).0;
            &&& w.cols == v.cols
            &&& w.background == v.background
            &&& w.bg_index == v.bg_index
            &&& !w.editing
            &&& w.status == invalid_value_text()
        }),
{
}

} // verus!
