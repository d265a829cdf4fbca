//! The file browser's state: the entries of the current directory (parent,
//! sub-directories, then images), a live search filter, and the selection.
//!
//! Reading directories is left to the caller: [`Browser::load`] takes the
//! listing, and [`Browser::handle_key`] answers [`Step::Load`] when a new
//! directory has to be read.

use vstd::prelude::*;
use crate::keys::Key;
use crate::text::{ascii_lower_seq, ascii_lowercase, chars_of, concat_str, contains_chars, contains_seq};
use crate::config::chars_eq_str;

verus! {

// ---------------------------------------------------------------------------
// Lowercase keys
// ---------------------------------------------------------------------------

/// The Unicode lowercase mapping of `s`, as `str::to_lowercase` computes it.
pub uninterp spec fn unicode_lowercase(s: Seq<char>) -> Seq<char>;

/// Calls `str::to_lowercase`; its result is named [`unicode_lowercase`] of the
/// argument (the mapping depends on nothing but the text). The lowercase of
/// the empty text is empty.
#[verifier::external_body]
fn to_lowercase(s: &str) -> (res: String)
    ensures
        res@ == unicode_lowercase(s@),
        s@.len() == 0 ==> res@.len() == 0,
{
    s.to_lowercase()
}

fn lowercase_chars(s: &str) -> (res: Vec<char>)
    ensures
        res@ == unicode_lowercase(s@),
        s@.len() == 0 ==> res@.len() == 0,
{
    let l = to_lowercase(s);
    chars_of(l.as_str())
}

// ---------------------------------------------------------------------------
// Image file names
// ---------------------------------------------------------------------------

/// The index of the last `c` in `s`, or -1.
pub open spec fn last_index_of(s: Seq<char>, c: char) -> int
    decreases s.len(),
{
    if s.len() == 0 {
        -1
    } else if s.last() == c {
        s.len() - 1
    } else {
        last_index_of(s.drop_last(), c)
    }
}

/// The extension of a file name, as `Path::extension` finds it: the text after
/// the last `.`, when that dot is not the first character and the name is not `..`.
pub open spec fn extension(name: Seq<char>) -> Option<Seq<char>> {
    let d = last_index_of(name, '.');
    if name == ".."@ || d <= 0 {
        None
    } else {
        Some(name.skip(d + 1))
    }
}

/// Whether `e` (in any ASCII case) is one of the image extensions the browser lists.
pub open spec fn image_extension(e: Seq<char>) -> bool {
    let l = ascii_lower_seq(e);
    ||| l == "png"@
    ||| l == "jpg"@
    ||| l == "jpeg"@
    ||| l == "webp"@
    ||| l == "bmp"@
    ||| l == "gif"@
    ||| l == "tif"@
    ||| l == "tiff"@
    ||| l == "avif"@
    ||| l == "qoi"@
    ||| l == "tga"@
    ||| l == "ppm"@
}

/// Whether a file with this name is shown as an image.
pub open spec fn is_image_name(name: Seq<char>) -> bool {
    match extension(name) {
        Some(e) => image_extension(e),
        None => false,
    }
}

fn last_dot(s: &[char]) -> (res: Option<usize>)
    ensures
        match res {
            Some(i) => i == last_index_of(s@, '.') && i < s.len(),
            None => last_index_of(s@, '.') == -1,
        },
{
    let mut j: usize = s.len();
    assert(s@.take(j as int) =~= s@);
    while j > 0 && s[j - 1] != '.'
        invariant
            j <= s@.len(),
            last_index_of(s@, '.') == last_index_of(s@.take(j as int), '.'),
        decreases j,
    {
        assert(s@.take(j as int).drop_last() =~= s@.take(j - 1));
        j = j - 1;
    }
    if j == 0 {
        None
    } else {
        Some(j - 1)
    }
}

/// Whether a file named `name` is an image the browser lists: its extension
/// (see [`extension`]) is one of png, jpg, jpeg, webp, bmp, gif, tif, tiff,
/// avif, qoi, tga, ppm, in any ASCII case.
pub fn is_image(name: &str) -> (res: bool)
    ensures
        res == is_image_name(name@),
{
    let cs = chars_of(name);
    if chars_eq_str(cs.as_slice(), "..") {
        return false;
    }
    let d = match last_dot(cs.as_slice()) {
        Some(d) => d,
        None => {
            return false;
        },
    };
    if d == 0 {
        return false;
    }
    let mut ext: Vec<char> = Vec::new();
    assert(d < cs.len());
    let mut k: usize = d + 1;
    while k < cs.len()
        invariant
            0 < d + 1 <= k <= cs@.len(),
            ext@ == cs@.subrange(d + 1, k as int),
        decreases cs@.len() - k,
    {
        ext.push(cs[k]);
        k = k + 1;
        assert(ext@ =~= cs@.subrange(d + 1, k as int));
    }
    assert(ext@ =~= cs@.skip(d + 1));
    let e = crate::text::string_from(ext.as_slice());
    let l = ascii_lowercase(e.as_str());
    let l = l.as_slice();
    chars_eq_str(l, "png") || chars_eq_str(l, "jpg") || chars_eq_str(l, "jpeg") || chars_eq_str(
        l,
        "webp",
    ) || chars_eq_str(l, "bmp") || chars_eq_str(l, "gif") || chars_eq_str(l, "tif")
        || chars_eq_str(l, "tiff") || chars_eq_str(l, "avif") || chars_eq_str(l, "qoi")
        || chars_eq_str(l, "tga") || chars_eq_str(l, "ppm")
}

// ---------------------------------------------------------------------------
// Entries and their order
// ---------------------------------------------------------------------------

/// One line of the browser list.
pub struct Entry {
    /// Shown text: the name, with `/` after a directory; `../` for the parent.
    pub label: String,
    /// Where the entry leads.
    pub path: String,
    pub is_dir: bool,
    /// The `../` entry (go up).
    pub parent: bool,
}

/// The plain contents of an [`Entry`].
pub struct EntryView {
    pub label: Seq<char>,
    pub path: Seq<char>,
    pub is_dir: bool,
    pub parent: bool,
}

impl View for Entry {
    type V = EntryView;

    open spec fn view(&self) -> EntryView {
        EntryView { label: self.label@, path: self.path@, is_dir: self.is_dir, parent: self.parent }
    }
}

/// One item of a directory listing, as read from the file system.
pub struct DirItem {
    /// The file name.
    pub name: String,
    /// The full path.
    pub path: String,
    /// Whether the item is (or links to) a directory.
    pub is_dir: bool,
}

pub open spec fn entry_views(v: Seq<Entry>) -> Seq<EntryView> {
    v.map_values(|e: Entry| e@)
}

/// Names that start with a dot are hidden.
pub open spec fn is_hidden(name: Seq<char>) -> bool {
    name.len() > 0 && name[0] == '.'
}

/// The sub-directories of a listing, in listing order, labelled `name/`.
pub open spec fn dir_entries(items: Seq<DirItem>) -> Seq<EntryView>
    decreases items.len(),
{
    if items.len() == 0 {
        Seq::empty()
    } else {
        let rest = dir_entries(items.drop_last());
        let it = items.last();
        if !is_hidden(it.name@) && it.is_dir {
            rest.push(EntryView { label: it.name@.push('/'), path: it.path@, is_dir: true, parent: false })
        } else {
            rest
        }
    }
}

/// The image files of a listing, in listing order, labelled with their name.
pub open spec fn file_entries(items: Seq<DirItem>) -> Seq<EntryView>
    decreases items.len(),
{
    if items.len() == 0 {
        Seq::empty()
    } else {
        let rest = file_entries(items.drop_last());
        let it = items.last();
        if !is_hidden(it.name@) && !it.is_dir && is_image_name(it.name@) {
            rest.push(EntryView { label: it.name@, path: it.path@, is_dir: false, parent: false })
        } else {
            rest
        }
    }
}

/// Strict lexicographic order of character sequences (by code point, which is
/// also the byte order of their UTF-8 encodings).
pub open spec fn seq_lt(a: Seq<char>, b: Seq<char>) -> bool
    decreases a.len(),
{
    if a.len() == 0 {
        b.len() > 0
    } else if b.len() == 0 {
        false
    } else if a[0] != b[0] {
        (a[0] as u32) < (b[0] as u32)
    } else {
        seq_lt(a.drop_first(), b.drop_first())
    }
}

/// The key entries are sorted by: the lowercase label.
pub open spec fn sort_key(e: EntryView) -> Seq<char> {
    unicode_lowercase(e.label)
}

/// The first position of `s` whose key is greater than the key of `x` (the
/// end of `s` if none is): where a stable insertion puts `x`.
pub open spec fn insert_pos(s: Seq<EntryView>, x: EntryView) -> int
    decreases s.len(),
{
    if s.len() == 0 {
        0
    } else if seq_lt(sort_key(x), sort_key(s[0])) {
        0
    } else {
        1 + insert_pos(s.drop_first(), x)
    }
}

/// `s` stably sorted by [`sort_key`]: the entries in key order, and entries
/// with equal keys in their original order.
pub open spec fn sort_by_label(s: Seq<EntryView>) -> Seq<EntryView>
    decreases s.len(),
{
    if s.len() == 0 {
        s
    } else {
        let r = sort_by_label(s.drop_last());
        r.insert(insert_pos(r, s.last()), s.last())
    }
}

/// The `../` entry leading to `p`.
pub open spec fn parent_entry(p: Seq<char>) -> EntryView {
    EntryView { label: "../"@, path: p, is_dir: true, parent: true }
}

/// The entries of a directory: `../` when it has a parent, then the
/// sub-directories, then the images, each group sorted by lowercase label.
pub open spec fn listing_entries(parent: Option<Seq<char>>, items: Seq<DirItem>) -> Seq<EntryView> {
    let head = match parent {
        Some(p) => seq![parent_entry(p)],
        None => Seq::empty(),
    };
    head + sort_by_label(dir_entries(items)) + sort_by_label(file_entries(items))
}

proof fn lemma_insert_pos_bounds(s: Seq<EntryView>, x: EntryView)
    ensures
        0 <= insert_pos(s, x) <= s.len(),
    decreases s.len(),
{
    if s.len() > 0 {
        lemma_insert_pos_bounds(s.drop_first(), x);
    }
}

proof fn lemma_sort_len(s: Seq<EntryView>)
    ensures
        sort_by_label(s).len() == s.len(),
    decreases s.len(),
{
    if s.len() > 0 {
        lemma_sort_len(s.drop_last());
        lemma_insert_pos_bounds(sort_by_label(s.drop_last()), s.last());
    }
}

/// Whether `a` comes strictly before `b` in lexicographic order.
fn chars_less(a: &[char], b: &[char]) -> (res: bool)
    ensures
        res == seq_lt(a@, b@),
{
    let mut i: usize = 0;
    assert(a@.skip(0) =~= a@);
    assert(b@.skip(0) =~= b@);
    while i < a.len() && i < b.len() && a[i] == b[i]
        invariant
            i <= a@.len(),
            i <= b@.len(),
            seq_lt(a@, b@) == seq_lt(a@.skip(i as int), b@.skip(i as int)),
        decreases a@.len() - i,
    {
        assert(a@.skip(i as int).drop_first() =~= a@.skip(i + 1));
        assert(b@.skip(i as int).drop_first() =~= b@.skip(i + 1));
        i = i + 1;
    }
    if i == a.len() {
        i < b.len()
    } else if i == b.len() {
        false
    } else {
        (a[i] as u32) < (b[i] as u32)
    }
}

/// `v` stably sorted by lowercase label (what `sort_by` on the lowercase
/// labels gives).
fn sort_entries(v: Vec<Entry>) -> (res: Vec<Entry>)
    ensures
        entry_views(res@) == sort_by_label(entry_views(v@)),
{
    let ghost orig = entry_views(v@);
    let mut out: Vec<Entry> = Vec::new();
    let mut keys: Vec<Vec<char>> = Vec::new();
    assert(orig.take(0) =~= Seq::<EntryView>::empty());
    for e in it: v.into_iter()
        invariant
            it.seq() == v@,
            orig == entry_views(v@),
            entry_views(out@) == sort_by_label(orig.take(it.index() as int)),
            keys@.len() == out@.len(),
            forall|q: int| 0 <= q < keys@.len() ==> #[trigger] keys@[q]@ == sort_key(out@[q]@),
    {
        let ghost i = it.index();
        let ghost r = entry_views(out@);
        let kx = lowercase_chars(e.label.as_str());
        let mut p: usize = 0;
        assert(r.skip(0) =~= r);
        while p < out.len() && !chars_less(kx.as_slice(), keys[p].as_slice())
            invariant
                p <= out@.len() == keys@.len(),
                r == entry_views(out@),
                kx@ == sort_key(e@),
                forall|q: int| 0 <= q < keys@.len() ==> #[trigger] keys@[q]@ == sort_key(out@[q]@),
                insert_pos(r, e@) == p + insert_pos(r.skip(p as int), e@),
            decreases out@.len() - p,
        {
            assert(r.skip(p as int).drop_first() =~= r.skip(p + 1));
            assert(r.skip(p as int)[0] == out@[p as int]@);
            p = p + 1;
        }
        proof {
            if p < out@.len() {
                assert(r.skip(p as int)[0] == out@[p as int]@);
            }
            assert(orig.take(i + 1).drop_last() =~= orig.take(i));
            assert(orig.take(i + 1).last() == e@);
        }
        let ghost ev = e@;
        let ghost old_keys = keys@;
        let ghost old_out = out@;
        out.insert(p, e);
        keys.insert(p, kx);
        assert(entry_views(out@) =~= r.insert(p as int, ev));
        assert forall|q: int| 0 <= q < keys@.len() implies #[trigger] keys@[q]@ == sort_key(
            out@[q]@,
        ) by {
            if q < p {
                assert(keys@[q] == old_keys[q] && out@[q] == old_out[q]);
            } else if q == p {
            } else {
                assert(keys@[q] == old_keys[q - 1] && out@[q] == old_out[q - 1]);
            }
        }
    }
    assert(orig.take(orig.len() as int) =~= orig);
    out
}

// ---------------------------------------------------------------------------
// The search filter
// ---------------------------------------------------------------------------

/// Whether entry `e` is kept by the search `query`: the lowercase query is
/// empty or occurs in the lowercase label.
pub open spec fn entry_matches(e: EntryView, query: Seq<char>) -> bool {
    let q = unicode_lowercase(query);
    q.len() == 0 || contains_seq(unicode_lowercase(e.label), q)
}

/// The indices, in increasing order, of the first `n` entries kept by `query`.
pub open spec fn filter_upto(es: Seq<EntryView>, query: Seq<char>, n: int) -> Seq<usize>
    decreases n,
{
    if n <= 0 {
        Seq::empty()
    } else {
        let rest = filter_upto(es, query, n - 1);
        if entry_matches(es[n - 1], query) {
            rest.push((n - 1) as usize)
        } else {
            rest
        }
    }
}

/// The indices, in increasing order, of the entries kept by `query`.
pub open spec fn filter_indices(es: Seq<EntryView>, query: Seq<char>) -> Seq<usize> {
    filter_upto(es, query, es.len() as int)
}

proof fn lemma_filter_upto_bounds(es: Seq<EntryView>, query: Seq<char>, n: int)
    requires
        0 <= n <= es.len(),
        es.len() <= usize::MAX,
    ensures
        filter_upto(es, query, n).len() <= n,
        forall|k: int|
            0 <= k < filter_upto(es, query, n).len() ==> #[trigger] filter_upto(es, query, n)[k] < n,
    decreases n,
{
    if n > 0 {
        lemma_filter_upto_bounds(es, query, n - 1);
    }
}

/// The indices `0..n`.
pub open spec fn all_indices(n: nat) -> Seq<usize> {
    Seq::new(n, |i: int| i as usize)
}

proof fn lemma_filter_all(es: Seq<EntryView>, query: Seq<char>, n: int)
    requires
        0 <= n <= es.len(),
        unicode_lowercase(query).len() == 0,
    ensures
        filter_upto(es, query, n) == all_indices(n as nat),
    decreases n,
{
    if n > 0 {
        lemma_filter_all(es, query, n - 1);
        assert(filter_upto(es, query, n) =~= all_indices(n as nat));
    } else {
        assert(filter_upto(es, query, n) =~= all_indices(n as nat));
    }
}

// ---------------------------------------------------------------------------
// The browser
// ---------------------------------------------------------------------------

/// What a key asks of the application.
pub enum Action {
    /// Nothing in particular.
    Nothing,
    /// The user chose this image.
    Open(String),
    /// Leave the application.
    Quit,
    /// Go back to the tuner (if an image is already loaded).
    Back,
}

/// The answer of [`Browser::handle_key`].
pub enum Step {
    /// The key is handled; here is what it asks.
    Done(Action),
    /// The browser moved to this directory: read it and hand it to
    /// [`Browser::load`]. The key asks nothing more ([`Action::Nothing`]).
    Load(String),
}

/// A step, in plain values.
pub enum Outcome {
    Nothing,
    Open(Seq<char>),
    Quit,
    Back,
    Load(Seq<char>),
}

pub open spec fn outcome_of(s: Step) -> Outcome {
    match s {
        Step::Done(Action::Nothing) => Outcome::Nothing,
        Step::Done(Action::Open(p)) => Outcome::Open(p@),
        Step::Done(Action::Quit) => Outcome::Quit,
        Step::Done(Action::Back) => Outcome::Back,
        Step::Load(p) => Outcome::Load(p@),
    }
}

/// The file browser.
pub struct Browser {
    /// The directory shown.
    pub cwd: String,
    /// Its parent directory, if it has one.
    pub parent_dir: Option<String>,
    pub entries: Vec<Entry>,
    /// Indices into `entries` of the entries kept by the search (all of them
    /// when the search is empty).
    pub filtered: Vec<usize>,
    /// Position in `filtered`.
    pub selected: usize,
    pub status: String,
    /// The search text.
    pub query: String,
    /// Typing goes to the search text.
    pub searching: bool,
}

/// The plain contents of a [`Browser`].
pub struct BrowserView {
    pub cwd: Seq<char>,
    pub parent_dir: Option<Seq<char>>,
    pub entries: Seq<EntryView>,
    pub filtered: Seq<usize>,
    pub selected: int,
    pub status: Seq<char>,
    pub query: Seq<char>,
    pub searching: bool,
}

pub open spec fn opt_view(o: Option<String>) -> Option<Seq<char>> {
    match o {
        Some(s) => Some(s@),
        None => None,
    }
}

impl View for Browser {
    type V = BrowserView;

    open spec fn view(&self) -> BrowserView {
        BrowserView {
            cwd: self.cwd@,
            parent_dir: opt_view(self.parent_dir),
            entries: entry_views(self.entries@),
            filtered: self.filtered@,
            selected: self.selected as int,
            status: self.status@,
            query: self.query@,
            searching: self.searching,
        }
    }
}

/// `v` with the filter recomputed from its query; a selection past the end
/// of the new list goes back to the top.
pub open spec fn refiltered(v: BrowserView) -> BrowserView {
    let f = filter_indices(v.entries, v.query);
    BrowserView {
        filtered: f,
        selected: if v.selected >= f.len() {
            0
        } else {
            v.selected
        },
        ..v
    }
}

/// `v` with the search left and its text cleared.
pub open spec fn search_cleared(v: BrowserView) -> BrowserView {
    BrowserView { query: Seq::empty(), searching: false, ..v }
}

impl BrowserView {
    /// The indices are valid and the selection is in the list (or 0 when the
    /// list is empty).
    pub open spec fn wf(self) -> bool {
        &&& forall|k: int|
            0 <= k < self.filtered.len() ==> #[trigger] self.filtered[k] < self.entries.len()
        &&& (0 <= self.selected < self.filtered.len() || (self.filtered.len() == 0
            && self.selected == 0))
    }
}

impl Browser {
    /// Recomputes `filtered` from the query.
    fn apply_filter(&mut self)
        ensures
            final(self)@ == refiltered(old(self)@),
            final(self)@.wf(),
            old(self)@.query.len() == 0 ==> final(self)@.filtered == all_indices(
                old(self)@.entries.len(),
            ),
    {
        let q = lowercase_chars(self.query.as_str());
        let mut out: Vec<usize> = Vec::new();
        let n = self.entries.len();
        let ghost es = self@.entries;
        let mut i: usize = 0;
        while i < n
            invariant
                i <= n == self.entries@.len(),
                es == self@.entries,
                q@ == unicode_lowercase(self.query@),
                out@ == filter_upto(es, self.query@, i as int),
            decreases n - i,
        {
            let lab = lowercase_chars(self.entries[i].label.as_str());
            assert(es[i as int] == self.entries@[i as int]@);
            if q.len() == 0 || contains_chars(lab.as_slice(), q.as_slice()) {
                out.push(i);
            }
            i = i + 1;
        }
        proof {
            lemma_filter_upto_bounds(es, self.query@, n as int);
            if self.query@.len() == 0 {
                lemma_filter_all(es, self.query@, n as int);
            }
        }
        self.filtered = out;
        if self.selected >= self.filtered.len() {
            self.selected = 0;
        }
    }
}

// ---------------------------------------------------------------------------
// Transitions
// ---------------------------------------------------------------------------

/// `v` after reading its directory: the listing (`None` when the directory
/// could not be read, which also sets the status), the parent directory, the
/// selection back at the top, and the filter recomputed.
pub open spec fn loaded(
    v: BrowserView,
    parent: Option<Seq<char>>,
    listing: Option<Seq<DirItem>>,
) -> BrowserView {
    let items = listing_items(listing);
    let status = match listing {
        Some(_) => v.status,
        None => "dossier illisible : "@ + v.cwd,
    };
    refiltered(
        BrowserView {
            entries: listing_entries(parent, items),
            parent_dir: parent,
            status: status,
            selected: 0,
            ..v
        },
    )
}

/// A listing, in plain values.
pub open spec fn listing_view(listing: Option<Vec<DirItem>>) -> Option<Seq<DirItem>> {
    match listing {
        Some(v) => Some(v@),
        None => None,
    }
}

/// The items of a listing (none when it could not be read).
pub open spec fn listing_items(listing: Option<Seq<DirItem>>) -> Seq<DirItem> {
    match listing {
        Some(it) => it,
        None => Seq::empty(),
    }
}

/// `v` with the selection moved by `delta` places, wrapping around the list.
pub open spec fn moved(v: BrowserView, delta: int) -> BrowserView {
    if v.filtered.len() == 0 {
        v
    } else {
        BrowserView { selected: (v.selected + delta) % (v.filtered.len() as int), ..v }
    }
}

/// Going up: to the parent directory, leaving the search, when there is one.
pub open spec fn went_up(v: BrowserView) -> (BrowserView, Outcome) {
    match v.parent_dir {
        Some(p) => (BrowserView { cwd: p, ..search_cleared(v) }, Outcome::Load(p)),
        None => (v, Outcome::Nothing),
    }
}

/// Activating the selected entry: `../` goes up, a directory is entered
/// (leaving the search), an image is chosen; nothing happens on an empty list.
pub open spec fn activated(v: BrowserView) -> (BrowserView, Outcome) {
    if 0 <= v.selected < v.filtered.len() {
        let e = v.entries[v.filtered[v.selected] as int];
        if e.parent {
            went_up(v)
        } else if e.is_dir {
            (BrowserView { cwd: e.path, ..search_cleared(v) }, Outcome::Load(e.path))
        } else {
            (v, Outcome::Open(e.path))
        }
    } else {
        (v, Outcome::Nothing)
    }
}

/// What a key does.
///
/// While searching: Esc clears and leaves the search, Enter and → activate,
/// Backspace removes the last character of the search, ↑/↓ move, any other
/// character is added to the search (the selection goes back to the top
/// whenever the search text changes).
///
/// Otherwise: `/` starts a search, `q` quits, Esc goes back, ↑/`k` and
/// ↓/`j` move, Enter/→/`l` activate, ←/`h`/Backspace go up.
pub open spec fn key_step(v: BrowserView, key: Key) -> (BrowserView, Outcome) {
    if v.searching {
        match key {
            Key::Esc => (refiltered(search_cleared(v)), Outcome::Nothing),
            Key::Enter => activated(v),
            Key::Right => activated(v),
            Key::Backspace => (
                refiltered(
                    BrowserView {
                        query: if v.query.len() > 0 {
                            v.query.drop_last()
                        } else {
                            v.query
                        },
                        selected: 0,
                        ..v
                    },
                ),
                Outcome::Nothing,
            ),
            Key::Up => (moved(v, -1), Outcome::Nothing),
            Key::Down => (moved(v, 1), Outcome::Nothing),
            Key::Char(c) => (
                refiltered(BrowserView { query: v.query.push(c), selected: 0, ..v }),
                Outcome::Nothing,
            ),
            _ => (v, Outcome::Nothing),
        }
    } else {
        match key {
            Key::Char('/') => (BrowserView { searching: true, ..v }, Outcome::Nothing),
            Key::Char('q') => (v, Outcome::Quit),
            Key::Esc => (v, Outcome::Back),
            Key::Up | Key::Char('k') => (moved(v, -1), Outcome::Nothing),
            Key::Down | Key::Char('j') => (moved(v, 1), Outcome::Nothing),
            Key::Enter | Key::Right | Key::Char('l') => activated(v),
            Key::Left | Key::Char('h') | Key::Backspace => went_up(v),
            _ => (v, Outcome::Nothing),
        }
    }
}

fn starts_with_dot(s: &str) -> (res: bool)
    ensures
        res == is_hidden(s@),
{
    let cs = chars_of(s);
    cs.len() > 0 && cs[0] == '.'
}

proof fn lemma_dir_file_step(items: Seq<DirItem>, i: int)
    requires
        0 <= i < items.len(),
    ensures
        items.take(i + 1).drop_last() == items.take(i),
        items.take(i + 1).last() == items[i],
{
    assert(items.take(i + 1).drop_last() =~= items.take(i));
}

impl Browser {
    /// Reads a listing of the current directory (`None`: it could not be
    /// read) whose parent is `parent`.
    pub fn load(&mut self, parent: Option<String>, listing: Option<Vec<DirItem>>)
        ensures
            final(self)@ == loaded(
                old(self)@,
                opt_view(parent),
                listing_view(listing),
            ),
            final(self)@.wf(),
            old(self)@.query.len() == 0 ==> final(self)@.filtered == all_indices(
                final(self)@.entries.len(),
            ),
    {
        let ghost items = listing_items(listing_view(listing));
        let mut dirs: Vec<Entry> = Vec::new();
        let mut files: Vec<Entry> = Vec::new();
        match listing {
            Some(list) => {
                assert(list@.take(0) =~= Seq::<DirItem>::empty());
                for item in it: list.into_iter()
                    invariant
                        it.seq() == items,
                        entry_views(dirs@) == dir_entries(items.take(it.index() as int)),
                        entry_views(files@) == file_entries(items.take(it.index() as int)),
                {
                    let ghost i = it.index();
                    proof {
                        lemma_dir_file_step(items, i);
                    }
                    let ghost old_dirs = dirs@;
                    let ghost old_files = files@;
                    if !starts_with_dot(item.name.as_str()) {
                        if item.is_dir {
                            let mut label = item.name.clone();
                            label.push('/');
                            dirs.push(Entry { label, path: item.path, is_dir: true, parent: false });
                            assert(entry_views(dirs@) =~= entry_views(old_dirs).push(dirs@.last()@));
                        } else if is_image(item.name.as_str()) {
                            files.push(
                                Entry { label: item.name, path: item.path, is_dir: false, parent: false },
                            );
                            assert(entry_views(files@) =~= entry_views(old_files).push(files@.last()@));
                        }
                    }
                }
                assert(items.take(items.len() as int) =~= items);
            },
            None => {
                self.status = concat_str("dossier illisible : ", self.cwd.as_str());
            },
        }
        let dirs = sort_entries(dirs);
        let files = sort_entries(files);
        let mut entries: Vec<Entry> = Vec::new();
        match &parent {
            Some(p) => {
                let label = <String as vstd::string::StringExecFns>::from_str("../");
                entries.push(Entry { label, path: p.clone(), is_dir: true, parent: true });
            },
            None => {},
        }
        let ghost head = entry_views(entries@);
        let mut dirs = dirs;
        let mut files = files;
        entries.append(&mut dirs);
        entries.append(&mut files);
        assert(entry_views(entries@) =~= listing_entries(opt_view(parent), items));
        self.entries = entries;
        self.parent_dir = parent;
        self.selected = 0;
        self.apply_filter();
    }

    /// A browser on directory `cwd` (whose parent is `parent`) with its listing.
    pub fn new(cwd: String, parent: Option<String>, listing: Option<Vec<DirItem>>) -> (res: Browser)
        ensures
            res@ == loaded(
                BrowserView {
                    cwd: cwd@,
                    parent_dir: None,
                    entries: Seq::empty(),
                    filtered: Seq::empty(),
                    selected: 0,
                    status: "Choisis une image (↵), « / » pour filtrer."@,
                    query: Seq::empty(),
                    searching: false,
                },
                opt_view(parent),
                listing_view(listing),
            ),
            res@.wf(),
            res@.filtered == all_indices(res@.entries.len()),
    {
        let mut b = Browser {
            cwd,
            parent_dir: None,
            entries: Vec::new(),
            filtered: Vec::new(),
            selected: 0,
            status: <String as vstd::string::StringExecFns>::from_str(
                "Choisis une image (↵), « / » pour filtrer.",
            ),
            query: String::new(),
            searching: false,
        };
        b.load(parent, listing);
        b
    }

    /// Replaces the status line.
    pub fn set_status(&mut self, s: String)
        ensures
            final(self)@ == (BrowserView { status: s@, ..old(self)@ }),
    {
        self.status = s;
    }

    /// The entry under the selection, if any.
    pub fn current(&self) -> (res: Option<&Entry>)
        requires
            self@.wf(),
        ensures
            match res {
                Some(e) => 0 <= self@.selected < self@.filtered.len() && e@ == self@.entries[self@.filtered[self@.selected] as int],
                None => !(0 <= self@.selected < self@.filtered.len()),
            },
    {
        if self.selected < self.filtered.len() {
            let i = self.filtered[self.selected];
            Some(&self.entries[i])
        } else {
            None
        }
    }

    fn exit_search(&mut self)
        ensures
            final(self)@ == search_cleared(old(self)@),
    {
        self.query = String::new();
        self.searching = false;
    }

    fn move_sel(&mut self, delta: i32)
        requires
            delta == 1 || delta == -1,
            old(self)@.wf(),
        ensures
            final(self)@ == moved(old(self)@, delta as int),
            final(self)@.wf(),
    {
        let n = self.filtered.len();
        if n == 0 {
            return;
        }
        if delta > 0 {
            self.selected = (self.selected + 1) % n;
        } else if self.selected == 0 {
            assert((0int - 1) % (n as int) == n - 1) by {
                vstd::arithmetic::div_mod::lemma_mod_add_multiples_vanish(-1, n as int);
                vstd::arithmetic::div_mod::lemma_small_mod((n - 1) as nat, n as nat);
            }
            self.selected = n - 1;
        } else {
            assert((self.selected - 1) % (n as int) == self.selected - 1) by {
                vstd::arithmetic::div_mod::lemma_small_mod((self.selected - 1) as nat, n as nat);
            }
            self.selected = self.selected - 1;
        }
    }

    fn open_parent(&mut self) -> (res: Step)
        ensures
            (final(self)@, outcome_of(res)) == went_up(old(self)@),
    {
        match &self.parent_dir {
            Some(p) => {
                let p = p.clone();
                self.cwd = p.clone();
                self.exit_search();
                Step::Load(p)
            },
            None => Step::Done(Action::Nothing),
        }
    }

    fn activate(&mut self) -> (res: Step)
        requires
            old(self)@.wf(),
        ensures
            (final(self)@, outcome_of(res)) == activated(old(self)@),
    {
        if self.selected >= self.filtered.len() {
            return Step::Done(Action::Nothing);
        }
        let i = self.filtered[self.selected];
        let parent = self.entries[i].parent;
        let is_dir = self.entries[i].is_dir;
        let path = self.entries[i].path.clone();
        if parent {
            self.open_parent()
        } else if is_dir {
            self.cwd = path.clone();
            self.exit_search();
            Step::Load(path)
        } else {
            Step::Done(Action::Open(path))
        }
    }

    /// Handles a key press (see [`key_step`]).
    pub fn handle_key(&mut self, key: Key) -> (res: Step)
        requires
            old(self)@.wf(),
        ensures
            (final(self)@, outcome_of(res)) == key_step(old(self)@, key),
            final(self)@.wf(),
            old(self)@.searching && key == Key::Esc ==> final(self)@.filtered == all_indices(
                old(self)@.entries.len(),
            ),
    {
        if self.searching {
            match key {
                Key::Esc => {
                    self.exit_search();
                    self.apply_filter();
                },
                Key::Enter => {
                    return self.activate();
                },
                Key::Backspace => {
                    self.query.pop();
                    self.selected = 0;
                    self.apply_filter();
                },
                Key::Up => self.move_sel(-1),
                Key::Down => self.move_sel(1),
                Key::Right => {
                    return self.activate();
                },
                Key::Char(c) => {
                    self.query.push(c);
                    self.selected = 0;
                    self.apply_filter();
                },
                _ => {},
            }
            return Step::Done(Action::Nothing);
        }
        match key {
            Key::Char('/') => {
                self.searching = true;
                Step::Done(Action::Nothing)
            },
            Key::Char('q') => Step::Done(Action::Quit),
            Key::Esc => Step::Done(Action::Back),
            Key::Up | Key::Char('k') => {
                self.move_sel(-1);
                Step::Done(Action::Nothing)
            },
            Key::Down | Key::Char('j') => {
                self.move_sel(1);
                Step::Done(Action::Nothing)
            },
            Key::Enter | Key::Right | Key::Char('l') => self.activate(),
            Key::Left | Key::Char('h') | Key::Backspace => self.open_parent(),
            _ => Step::Done(Action::Nothing),
        }
    }

    /// The positions `start..end` of `filtered` shown in a list `height` rows
    /// tall: a window around the selection, kept inside the list.
    pub fn visible_range(&self, height: usize) -> (res: (usize, usize))
        ensures
            ({
                let n = self@.filtered.len() as int;
                let half_back = if self@.selected >= (height / 2) as int {
                    self@.selected - (height / 2) as int
                } else {
                    0
                };
                let last_start = if n >= height {
                    n - height
                } else {
                    0
                };
                let start = if half_back <= last_start {
                    half_back
                } else {
                    last_start
                };
                &&& res.0 == start
                &&& res.1 == (if start + height <= n {
                    start + height
                } else {
                    n
                })
            }),
    {
        let n = self.filtered.len();
        let start = self.selected.saturating_sub(height / 2);
        let last_start = n.saturating_sub(height);
        let start = if start <= last_start {
            start
        } else {
            last_start
        };
        let end = if n - start >= height {
            start + height
        } else {
            n
        };
        (start, end)
    }
}

// ---------------------------------------------------------------------------
// Laws
// ---------------------------------------------------------------------------

proof fn lemma_last_index_past(s: Seq<char>, e: Seq<char>, c: char)
    requires
        !e.contains(c),
    ensures
        last_index_of(s + e, c) == last_index_of(s, c),
    decreases e.len(),
{
    if e.len() == 0 {
        assert(s + e =~= s);
    } else {
        assert(e.last() != c) by {
            assert(e[e.len() - 1] == e.last());
        }
        assert((s + e).drop_last() =~= s + e.drop_last());
        assert forall|k: int| 0 <= k < e.drop_last().len() implies e.drop_last()[k] != c by {
            assert(e.drop_last()[k] == e[k]);
        }
        lemma_last_index_past(s, e.drop_last(), c);
    }
}

/// A file named `stem.ext` is an image whenever `ext`, in any ASCII case, is
/// one of png, jpg, jpeg, webp, bmp, gif, tif, tiff, avif, qoi, tga, ppm (and
/// the stem is not empty): its extension is `ext`.
pub proof fn lemma_image_names(stem: Seq<char>, ext: Seq<char>)
    requires
        stem.len() > 0,
        ({
            let l = ascii_lower_seq(ext);
            ||| l == "png"@
            ||| l == "jpg"@
            ||| l == "jpeg"@
            ||| l == "webp"@
            ||| l == "bmp"@
            ||| l == "gif"@
            ||| l == "tif"@
            ||| l == "tiff"@
            ||| l == "avif"@
            ||| l == "qoi"@
            ||| l == "tga"@
            ||| l == "ppm"@
        }),
    ensures
        extension(stem + "."@ + ext) == Some(ext),
        is_image_name(stem + "."@ + ext),
{
    reveal_strlit(".");
    reveal_strlit("..");
    reveal_strlit("png");
    reveal_strlit("jpg");
    reveal_strlit("jpeg");
    reveal_strlit("webp");
    reveal_strlit("bmp");
    reveal_strlit("gif");
    reveal_strlit("tif");
    reveal_strlit("tiff");
    reveal_strlit("avif");
    reveal_strlit("qoi");
    reveal_strlit("tga");
    reveal_strlit("ppm");
    let l = ascii_lower_seq(ext);
    assert(l.len() == ext.len());
    assert(ext.len() >= 3);
    assert(!ext.contains('.')) by {
        if ext.contains('.') {
            let k = choose|k: int| 0 <= k < ext.len() && ext[k] == '.';
            assert(l[k] == '.');
        }
    }
    let head = stem + "."@;
    let name = head + ext;
    assert(head.last() == '.');
    assert(last_index_of(head, '.') == stem.len());
    lemma_last_index_past(head, ext, '.');
    assert(name.len() >= 5);
    assert(name != ".."@);
    assert(name.skip(stem.len() as int + 1) =~= ext);
}

/// Moving the selection down then up, or up then down, comes back.
pub proof fn lemma_move_round_trip(v: BrowserView)
    requires
        v.wf(),
    ensures
        moved(moved(v, 1), -1) == v,
        moved(moved(v, -1), 1) == v,
{
    if v.filtered.len() > 0 {
        let n = v.filtered.len() as int;
        let s = v.selected;
        vstd::arithmetic::div_mod::lemma_add_mod_noop_right(-1, s + 1, n);
        vstd::arithmetic::div_mod::lemma_add_mod_noop_right(1, s - 1, n);
        vstd::arithmetic::div_mod::lemma_small_mod(s as nat, n as nat);
        assert(moved(moved(v, 1), -1) =~= v);
        assert(moved(moved(v, -1), 1) =~= v);
    }
}

proof fn lemma_seq_lt_transitive(a: Seq<char>, b: Seq<char>, c: Seq<char>)
    requires
        seq_lt(a, b),
        seq_lt(b, c),
    ensures
        seq_lt(a, c),
    decreases a.len(),
{
    if a.len() > 0 && b.len() > 0 && c.len() > 0 && a[0] == b[0] && b[0] == c[0] {
        lemma_seq_lt_transitive(a.drop_first(), b.drop_first(), c.drop_first());
    }
}

proof fn lemma_seq_lt_irreflexive(a: Seq<char>)
    ensures
        !seq_lt(a, a),
    decreases a.len(),
{
    if a.len() > 0 {
        lemma_seq_lt_irreflexive(a.drop_first());
    }
}

proof fn lemma_insert_pos_spec(s: Seq<EntryView>, x: EntryView)
    ensures
        0 <= insert_pos(s, x) <= s.len(),
        forall|q: int| 0 <= q < insert_pos(s, x) ==> !seq_lt(sort_key(x), sort_key(#[trigger] s[q])),
        insert_pos(s, x) < s.len() ==> seq_lt(sort_key(x), sort_key(s[insert_pos(s, x)])),
    decreases s.len(),
{
    if s.len() > 0 && !seq_lt(sort_key(x), sort_key(s[0])) {
        lemma_insert_pos_spec(s.drop_first(), x);
        assert forall|q: int| 0 <= q < insert_pos(s, x) implies !seq_lt(
            sort_key(x),
            sort_key(#[trigger] s[q]),
        ) by {
            if q > 0 {
                assert(s[q] == s.drop_first()[q - 1]);
            }
        }
    }
}

/// Whether the keys of `s` never decrease.
pub open spec fn sorted_by_key(s: Seq<EntryView>) -> bool {
    forall|i: int, j: int| 0 <= i < j < s.len() ==> !seq_lt(sort_key(#[trigger] s[j]), sort_key(#[trigger] s[i]))
}

/// The browser's sort orders by lowercase label and keeps every entry: the
/// result is sorted and is a permutation of its input.
pub proof fn lemma_sort_by_label(s: Seq<EntryView>)
    ensures
        sorted_by_key(sort_by_label(s)),
        sort_by_label(s).to_multiset() == s.to_multiset(),
    decreases s.len(),
{
    broadcast use vstd::seq_lib::group_to_multiset_ensures;

    if s.len() > 0 {
        let r = sort_by_label(s.drop_last());
        let x = s.last();
        lemma_sort_by_label(s.drop_last());
        lemma_insert_pos_spec(r, x);
        let p = insert_pos(r, x);
        let t = r.insert(p, x);
        assert(t == sort_by_label(s));
        assert forall|i: int, j: int| 0 <= i < j < t.len() implies !seq_lt(
            sort_key(#[trigger] t[j]),
            sort_key(#[trigger] t[i]),
        ) by {
            assert(t[p] == x);
            if j < p {
                assert(t[i] == r[i] && t[j] == r[j]);
            } else if j == p {
                assert(t[i] == r[i]);
                assert(!seq_lt(sort_key(x), sort_key(r[i])));
            } else if i < p {
                assert(t[i] == r[i] && t[j] == r[j - 1]);
            } else if i == p {
                assert(t[j] == r[j - 1]);
                assert(seq_lt(sort_key(x), sort_key(r[p])));
                if p < j - 1 {
                    assert(!seq_lt(sort_key(r[j - 1]), sort_key(r[p])));
                }
                if seq_lt(sort_key(r[j - 1]), sort_key(x)) {
                    lemma_seq_lt_transitive(sort_key(r[j - 1]), sort_key(x), sort_key(r[p]));
                    lemma_seq_lt_irreflexive(sort_key(r[p]));
                }
            } else {
                assert(t[i] == r[i - 1] && t[j] == r[j - 1]);
            }
        }
        vstd::seq_lib::to_multiset_insert(r, p, x);
        assert(s == s.drop_last().push(x));
        vstd::seq_lib::to_multiset_build(s.drop_last(), x);
    }
}

/// `e` is the entry of a visible directory of `items`.
pub open spec fn is_dir_entry_of(items: Seq<DirItem>, e: EntryView) -> bool {
    exists|j: int|
        0 <= j < items.len() && !is_hidden(#[trigger] items[j].name@) && items[j].is_dir && e
            == (EntryView { label: items[j].name@.push('/'), path: items[j].path@, is_dir: true, parent: false })
}

/// `e` is the entry of a visible image file of `items`.
pub open spec fn is_file_entry_of(items: Seq<DirItem>, e: EntryView) -> bool {
    exists|j: int|
        0 <= j < items.len() && !is_hidden(#[trigger] items[j].name@) && !items[j].is_dir
            && is_image_name(items[j].name@) && e == (EntryView {
            label: items[j].name@,
            path: items[j].path@,
            is_dir: false,
            parent: false,
        })
}

proof fn lemma_dir_entries_from(items: Seq<DirItem>)
    ensures
        forall|k: int|
            0 <= k < dir_entries(items).len() ==> is_dir_entry_of(items, #[trigger] dir_entries(items)[k]),
    decreases items.len(),
{
    if items.len() > 0 {
        let pre = items.drop_last();
        lemma_dir_entries_from(pre);
        assert forall|k: int| 0 <= k < dir_entries(items).len() implies is_dir_entry_of(
            items,
            #[trigger] dir_entries(items)[k],
        ) by {
            if k < dir_entries(pre).len() {
                let e = dir_entries(pre)[k];
                assert(dir_entries(items)[k] == e);
                let j = choose|j: int|
                    0 <= j < pre.len() && !is_hidden(#[trigger] pre[j].name@) && pre[j].is_dir && e
                        == (EntryView { label: pre[j].name@.push('/'), path: pre[j].path@, is_dir: true, parent: false });
                assert(items[j] == pre[j]);
            } else {
                let j = items.len() - 1;
                assert(items[j] == items.last());
            }
        }
    }
}

proof fn lemma_file_entries_from(items: Seq<DirItem>)
    ensures
        forall|k: int|
            0 <= k < file_entries(items).len() ==> is_file_entry_of(items, #[trigger] file_entries(items)[k]),
    decreases items.len(),
{
    if items.len() > 0 {
        let pre = items.drop_last();
        lemma_file_entries_from(pre);
        assert forall|k: int| 0 <= k < file_entries(items).len() implies is_file_entry_of(
            items,
            #[trigger] file_entries(items)[k],
        ) by {
            if k < file_entries(pre).len() {
                let e = file_entries(pre)[k];
                assert(file_entries(items)[k] == e);
                let j = choose|j: int|
                    0 <= j < pre.len() && !is_hidden(#[trigger] pre[j].name@) && !pre[j].is_dir
                        && is_image_name(pre[j].name@) && e == (EntryView {
                        label: pre[j].name@,
                        path: pre[j].path@,
                        is_dir: false,
                        parent: false,
                    });
                assert(items[j] == pre[j]);
            } else {
                let j = items.len() - 1;
                assert(items[j] == items.last());
            }
        }
    }
}

proof fn lemma_sorted_members(s: Seq<EntryView>, k: int)
    requires
        0 <= k < sort_by_label(s).len(),
    ensures
        s.contains(sort_by_label(s)[k]),
{
    broadcast use vstd::seq_lib::group_to_multiset_ensures;

    lemma_sort_by_label(s);
    let t = sort_by_label(s);
    assert(t.contains(t[k]));
    assert(t.to_multiset().count(t[k]) > 0);
}

/// The entries of a directory: `../` first when there is a parent; then the
/// visible sub-directories, each labelled with its name and `/`, sorted by
/// lowercase label; then the visible image files, labelled with their name,
/// sorted likewise. Each group holds every such item of the listing once.
pub proof fn lemma_listing(parent: Option<Seq<char>>, items: Seq<DirItem>)
    ensures
        ({
            let es = listing_entries(parent, items);
            let h: int = if parent is Some {
                1
            } else {
                0
            };
            let nd = dir_entries(items).len() as int;
            let nf = file_entries(items).len() as int;
            &&& es.len() == h + nd + nf
            &&& (parent matches Some(p) ==> es[0] == parent_entry(p))
            &&& forall|k: int| h <= k < h + nd ==> is_dir_entry_of(items, #[trigger] es[k])
            &&& forall|k: int| h + nd <= k < es.len() ==> is_file_entry_of(items, #[trigger] es[k])
            &&& sorted_by_key(es.subrange(h, h + nd))
            &&& sorted_by_key(es.subrange(h + nd, es.len() as int))
            &&& es.subrange(h, h + nd).to_multiset() == dir_entries(items).to_multiset()
            &&& es.subrange(h + nd, es.len() as int).to_multiset() == file_entries(items).to_multiset()
        }),
{
    let es = listing_entries(parent, items);
    let head: Seq<EntryView> = match parent {
        Some(p) => seq![parent_entry(p)],
        None => Seq::empty(),
    };
    let h = head.len() as int;
    let ds = sort_by_label(dir_entries(items));
    let fs = sort_by_label(file_entries(items));
    lemma_sort_len(dir_entries(items));
    lemma_sort_len(file_entries(items));
    lemma_sort_by_label(dir_entries(items));
    lemma_sort_by_label(file_entries(items));
    lemma_dir_entries_from(items);
    lemma_file_entries_from(items);
    let nd = ds.len() as int;
    assert(es == head + ds + fs);
    assert(es.subrange(h, h + nd) =~= ds);
    assert(es.subrange(h + nd, es.len() as int) =~= fs);
    assert forall|k: int| h <= k < h + nd implies is_dir_entry_of(items, #[trigger] es[k]) by {
        assert(es[k] == ds[k - h]);
        lemma_sorted_members(dir_entries(items), k - h);
        let i = choose|i: int| 0 <= i < dir_entries(items).len() && dir_entries(items)[i] == ds[k - h];
        assert(is_dir_entry_of(items, dir_entries(items)[i]));
    }
    assert forall|k: int| h + nd <= k < es.len() implies is_file_entry_of(items, #[trigger] es[k]) by {
        assert(es[k] == fs[k - h - nd]);
        lemma_sorted_members(file_entries(items), k - h - nd);
        let i = choose|i: int| 0 <= i < file_entries(items).len() && file_entries(items)[i] == fs[k - h - nd];
        assert(is_file_entry_of(items, file_entries(items)[i]));
    }
}

} // verus!
