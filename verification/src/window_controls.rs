//! The desktop's own window buttons: which look they have and on which side each one sits,
//! so borderless mode can draw controls that match the frames of every other window.

use vstd::prelude::*;
use vstd::string::StrSliceExecFns;
use crate::settings::WindowControlsStyle;
use crate::text::{
    chars_of, find_in_range, first_index, is_space, lemma_first_index, range_eq, split_on,
    split_ranges, trim, trim_range, trim_start,
};

verus! {

#[derive(Debug, Clone, Copy, PartialEq, Eq, Structural)]
pub enum WindowButton {
    Minimize,
    Maximize,
    Close,
}

/// What the running desktop uses. `style` is never [`WindowControlsStyle::Auto`].
#[derive(Debug, Clone, PartialEq, Eq)]
pub struct SystemWindowControls {
    pub style: WindowControlsStyle,
    pub left: Vec<WindowButton>,
    pub right: Vec<WindowButton>,
}

/// The buttons of a [`SystemWindowControls`], side by side.
#[verifier::ext_equal]
pub struct ControlsView {
    pub style: WindowControlsStyle,
    pub left: Seq<WindowButton>,
    pub right: Seq<WindowButton>,
}

impl View for SystemWindowControls {
    type V = ControlsView;

    open spec fn view(&self) -> ControlsView {
        ControlsView { style: self.style, left: self.left@, right: self.right@ }
    }
}

/// The platforms whose desktops differ in where the window buttons sit.
#[derive(Debug, Clone, Copy, PartialEq, Eq, Structural)]
pub enum Platform {
    Linux,
    Windows,
    Macos,
    Other,
}

pub open spec fn minimize_maximize_close() -> Seq<WindowButton> {
    seq![WindowButton::Minimize, WindowButton::Maximize, WindowButton::Close]
}

/// All three buttons on the right, in the order most desktops use.
pub open spec fn right_view(style: WindowControlsStyle) -> ControlsView {
    ControlsView { style, left: Seq::empty(), right: minimize_maximize_close() }
}

impl SystemWindowControls {
    /// Minimize, maximize and close on the right, nothing on the left.
    pub fn right(style: WindowControlsStyle) -> (r: Self)
        ensures
            r@ == right_view(style),
    {
        let mut right: Vec<WindowButton> = Vec::new();
        right.push(WindowButton::Minimize);
        right.push(WindowButton::Maximize);
        right.push(WindowButton::Close);
        let r = SystemWindowControls { style, left: Vec::new(), right };
        assert(r@.right =~= minimize_maximize_close());
        assert(r@.left =~= Seq::<WindowButton>::empty());
        r
    }
}

// ---------------------------------------------------------------------------------------------
// KDE

pub open spec fn kde_group() -> Seq<char> {
    "[org.kde.kdecoration2]"@
}

pub open spec fn kde_left_key() -> Seq<char> {
    "ButtonsOnLeft"@
}

pub open spec fn kde_right_key() -> Seq<char> {
    "ButtonsOnRight"@
}

/// KWin's left side when no file sets it: window menu and on-all-desktops.
pub open spec fn kde_default_left() -> Seq<char> {
    "MS"@
}

/// KWin's right side when no file sets it: context help, minimize, maximize and close.
pub open spec fn kde_default_right() -> Seq<char> {
    "HIAX"@
}

/// The button a KWin letter stands for, of the three this app can act on.
pub open spec fn kde_letter(c: char) -> Option<WindowButton> {
    if c == 'I' {
        Some(WindowButton::Minimize)
    } else if c == 'A' {
        Some(WindowButton::Maximize)
    } else if c == 'X' {
        Some(WindowButton::Close)
    } else {
        None
    }
}

/// The letter KWin writes for a button.
pub open spec fn kde_char(b: WindowButton) -> char {
    match b {
        WindowButton::Minimize => 'I',
        WindowButton::Maximize => 'A',
        WindowButton::Close => 'X',
    }
}

/// A KWin button row written with each button's letter, however long and in whatever
/// order, places exactly those buttons in that order; KWin's default right side, `HIAX`,
/// is minimize, maximize and close.
pub proof fn lemma_kde_row_letters(bs: Seq<WindowButton>)
    ensures
        kde_row(bs.map_values(|b: WindowButton| kde_char(b))) == bs,
        kde_row(kde_default_right()) == minimize_maximize_close(),
    decreases bs.len(),
{
    let row = bs.map_values(|b: WindowButton| kde_char(b));
    if bs.len() > 0 {
        lemma_kde_row_letters(bs.drop_last());
        assert(row.drop_last() =~= bs.drop_last().map_values(|b: WindowButton| kde_char(b)));
        assert(row.last() == kde_char(bs.last()));
        assert(bs.drop_last().push(bs.last()) =~= bs);
    } else {
        assert(row =~= Seq::<char>::empty());
    }
    reveal_strlit("HIAX");
    let d = kde_default_right();
    assert(d.drop_last().drop_last().drop_last().drop_last() =~= Seq::<char>::empty());
    assert(kde_row(d) =~= minimize_maximize_close()) by {
        reveal_with_fuel(kde_row, 5);
        assert(d =~= seq!['H', 'I', 'A', 'X']);
        assert(d.drop_last() =~= seq!['H', 'I', 'A']);
        assert(d.drop_last().drop_last() =~= seq!['H', 'I']);
        assert(d.drop_last().drop_last().drop_last() =~= seq!['H']);
    }
}

/// The buttons of a KWin button row, in order; other letters are skipped.
pub open spec fn kde_row(row: Seq<char>) -> Seq<WindowButton>
    decreases row.len(),
{
    if row.len() == 0 {
        Seq::empty()
    } else {
        let r = kde_row(row.drop_last());
        match kde_letter(row.last()) {
            Some(b) => r.push(b),
            None => r,
        }
    }
}

/// Reads the INI lines from the front: a `[...]` line opens a group, and inside `group`
/// the first `key=value` line (both sides trimmed) gives the value.
pub open spec fn ini_scan(
    lines: Seq<Seq<char>>,
    in_group: bool,
    group: Seq<char>,
    key: Seq<char>,
) -> Option<Seq<char>>
    decreases lines.len(),
{
    if lines.len() == 0 {
        None
    } else {
        let line = trim(lines[0]);
        if line.len() > 0 && line[0] == '[' {
            ini_scan(lines.drop_first(), line == group, group, key)
        } else if !in_group {
            ini_scan(lines.drop_first(), in_group, group, key)
        } else {
            match first_index(line, '=') {
                Some(p) => if trim(line.take(p)) == key {
                    Some(trim(line.skip(p + 1)))
                } else {
                    ini_scan(lines.drop_first(), in_group, group, key)
                },
                None => ini_scan(lines.drop_first(), in_group, group, key),
            }
        }
    }
}

/// The value of `key` in the section `group` of an INI text.
pub open spec fn ini_lookup(file: Seq<char>, group: Seq<char>, key: Seq<char>) -> Option<
    Seq<char>,
> {
    ini_scan(split_on(file, '\n'), false, group, key)
}

/// The value of `key` in the first file that sets it.
pub open spec fn first_lookup(files: Seq<Seq<char>>, group: Seq<char>, key: Seq<char>) -> Option<
    Seq<char>,
>
    decreases files.len(),
{
    if files.len() == 0 {
        None
    } else {
        match ini_lookup(files[0], group, key) {
            Some(v) => Some(v),
            None => first_lookup(files.drop_first(), group, key),
        }
    }
}

pub open spec fn string_views(files: Seq<String>) -> Seq<Seq<char>> {
    files.map_values(|f: String| f@)
}

/// Breeze, with each side from the first file that sets it, else KWin's default.
pub open spec fn kde_layout_view(files: Seq<Seq<char>>) -> ControlsView {
    let left = match first_lookup(files, kde_group(), kde_left_key()) {
        Some(v) => v,
        None => kde_default_left(),
    };
    let right = match first_lookup(files, kde_group(), kde_right_key()) {
        Some(v) => v,
        None => kde_default_right(),
    };
    ControlsView { style: WindowControlsStyle::Breeze, left: kde_row(left), right: kde_row(right) }
}

/// KWin spells a button row as letters; only the three this app can act on are kept.
pub fn kde_buttons(row: &str) -> (r: Vec<WindowButton>)
    ensures
        r@ == kde_row(row@),
{
    let v = chars_of(row);
    let mut r: Vec<WindowButton> = Vec::new();
    let mut i: usize = 0;
    while i < v.len()
        invariant
            v@ == row@,
            i <= v@.len(),
            r@ == kde_row(v@.take(i as int)),
        decreases v@.len() - i,
    {
        assert(v@.take(i + 1).drop_last() =~= v@.take(i as int));
        let c = v[i];
        if c == 'I' {
            r.push(WindowButton::Minimize);
        } else if c == 'A' {
            r.push(WindowButton::Maximize);
        } else if c == 'X' {
            r.push(WindowButton::Close);
        }
        i = i + 1;
    }
    assert(v@.take(v@.len() as int) =~= v@);
    r
}

proof fn lemma_ini_scan_step(v: Seq<char>, lo: int, p: int, hi: int)
    requires
        0 <= lo <= p < hi <= v.len(),
    ensures
        v.subrange(lo, hi).take(p - lo) == v.subrange(lo, p),
        v.subrange(lo, hi).skip(p - lo + 1) == v.subrange(p + 1, hi),
{
    assert(v.subrange(lo, hi).take(p - lo) =~= v.subrange(lo, p));
    assert(v.subrange(lo, hi).skip(p - lo + 1) =~= v.subrange(p + 1, hi));
}

/// The value of `key` inside the `group` section of one INI file, trimmed.
pub fn ini_value<'a>(file: &'a str, group: &str, key: &str) -> (r: Option<&'a str>)
    ensures
        match ini_lookup(file@, group@, key@) {
            Some(x) => r is Some && r->0@ == x,
            None => r is None,
        },
{
    let v = chars_of(file);
    let g = chars_of(group);
    let k = chars_of(key);
    let n = v.len();
    assert(v@.subrange(0, n as int) =~= v@);
    let lines = split_ranges(v.as_slice(), 0, n, '\n');
    let ghost all = split_on(v@, '\n');
    let mut in_group = false;
    let mut idx: usize = 0;
    assert(all.skip(0) =~= all);
    while idx < lines.len()
        invariant
            v@ == file@,
            g@ == group@,
            k@ == key@,
            n == v@.len(),
            all == split_on(v@, '\n'),
            lines@.len() == all.len(),
            idx <= lines@.len(),
            forall|j: int|
                0 <= j < lines@.len() ==> {
                    &&& 0 <= (#[trigger] lines@[j]).0 <= lines@[j].1 <= n
                    &&& v@.subrange(lines@[j].0 as int, lines@[j].1 as int) == all[j]
                },
            ini_lookup(file@, group@, key@) == ini_scan(all.skip(idx as int), in_group, g@, k@),
        decreases lines@.len() - idx,
    {
        let ghost rest = all.skip(idx as int);
        assert(rest[0] == all[idx as int]);
        assert(rest.drop_first() =~= all.skip(idx + 1));
        let (s, e) = lines[idx];
        let (a, b) = trim_range(v.as_slice(), s, e);
        let ghost line = trim(all[idx as int]);
        assert(v@.subrange(a as int, b as int) == line);
        if a < b && v[a] == '[' {
            assert(line[0] == v@[a as int]);
            in_group = range_eq(v.as_slice(), a, b, g.as_slice());
        } else if in_group {
            proof {
                if line.len() > 0 {
                    assert(line[0] == v@[a as int]);
                }
            }
            match find_in_range(v.as_slice(), a, b, '=') {
                Some(p) => {
                    proof {
                        lemma_ini_scan_step(v@, a as int, p as int, b as int);
                        lemma_first_index(line, '=');
                    }
                    let (na, nb) = trim_range(v.as_slice(), a, p);
                    if range_eq(v.as_slice(), na, nb, k.as_slice()) {
                        let (va, vb) = trim_range(v.as_slice(), p + 1, b);
                        return Some(file.substring_char(va, vb));
                    }
                },
                None => {},
            }
        } else {
            proof {
                if line.len() > 0 {
                    assert(line[0] == v@[a as int]);
                }
            }
        }
        idx = idx + 1;
    }
    None
}

/// Breeze with the button sides from the first `kwinrc` that sets them.
pub fn kde_layout(files: &[String]) -> (r: SystemWindowControls)
    ensures
        r@ == kde_layout_view(string_views(files@)),
{
    let left = first_kde_value(files, "ButtonsOnLeft");
    let right = first_kde_value(files, "ButtonsOnRight");
    let left_row = match left {
        Some(x) => x,
        None => "MS",
    };
    let right_row = match right {
        Some(x) => x,
        None => "HIAX",
    };
    SystemWindowControls {
        style: WindowControlsStyle::Breeze,
        left: kde_buttons(left_row),
        right: kde_buttons(right_row),
    }
}

/// `key` in the KDE decoration group of the first file that sets it.
fn first_kde_value<'a>(files: &'a [String], key: &str) -> (r: Option<&'a str>)
    ensures
        match first_lookup(string_views(files@), kde_group(), key@) {
            Some(x) => r is Some && r->0@ == x,
            None => r is None,
        },
{
    let ghost views = string_views(files@);
    let mut i: usize = 0;
    assert(views.skip(0) =~= views);
    while i < files.len()
        invariant
            views == string_views(files@),
            i <= files@.len(),
            first_lookup(views, kde_group(), key@) == first_lookup(
                views.skip(i as int),
                kde_group(),
                key@,
            ),
        decreases files@.len() - i,
    {
        let ghost rest = views.skip(i as int);
        assert(rest[0] == files@[i as int]@);
        assert(rest.drop_first() =~= views.skip(i + 1));
        let found = ini_value(files[i].as_str(), "[org.kde.kdecoration2]", key);
        if found.is_some() {
            return found;
        }
        i = i + 1;
    }
    None
}

// ---------------------------------------------------------------------------------------------
// GNOME

/// `s` without leading `c`.
pub open spec fn strip_start(s: Seq<char>, c: char) -> Seq<char>
    decreases s.len(),
{
    if s.len() > 0 && s[0] == c {
        strip_start(s.drop_first(), c)
    } else {
        s
    }
}

/// `s` without trailing `c`.
pub open spec fn strip_end(s: Seq<char>, c: char) -> Seq<char>
    decreases s.len(),
{
    if s.len() > 0 && s.last() == c {
        strip_end(s.drop_last(), c)
    } else {
        s
    }
}

/// `s.trim().trim_matches('\'')`: `gsettings` prints a string value in single quotes.
pub open spec fn unquoted(s: Seq<char>) -> Seq<char> {
    strip_end(strip_start(trim(s), '\''), '\'')
}

/// The button a GNOME button name stands for, of the three this app can act on.
pub open spec fn gnome_name(name: Seq<char>) -> Option<WindowButton> {
    if name == "minimize"@ {
        Some(WindowButton::Minimize)
    } else if name == "maximize"@ {
        Some(WindowButton::Maximize)
    } else if name == "close"@ {
        Some(WindowButton::Close)
    } else {
        None
    }
}

/// The name GNOME's `button-layout` gives a button.
pub open spec fn gnome_text(b: WindowButton) -> Seq<char> {
    match b {
        WindowButton::Minimize => seq!['m', 'i', 'n', 'i', 'm', 'i', 'z', 'e'],
        WindowButton::Maximize => seq!['m', 'a', 'x', 'i', 'm', 'i', 'z', 'e'],
        WindowButton::Close => seq!['c', 'l', 'o', 's', 'e'],
    }
}

/// Each button's GNOME name stands for that button, and for no other.
pub proof fn lemma_gnome_names(b: WindowButton)
    ensures
        gnome_name(gnome_text(b)) == Some(b),
{
    reveal_strlit("minimize");
    reveal_strlit("maximize");
    reveal_strlit("close");
    assert(gnome_text(WindowButton::Minimize) =~= "minimize"@);
    assert(gnome_text(WindowButton::Maximize) =~= "maximize"@);
    assert(gnome_text(WindowButton::Close) =~= "close"@);
    assert(gnome_text(WindowButton::Maximize) != "minimize"@) by {
        assert(gnome_text(WindowButton::Maximize)[1] != "minimize"@[1]);
    }
    assert(gnome_text(WindowButton::Close) != "minimize"@) by {
        assert(gnome_text(WindowButton::Close).len() != "minimize"@.len());
    }
    assert(gnome_text(WindowButton::Close) != "maximize"@) by {
        assert(gnome_text(WindowButton::Close).len() != "maximize"@.len());
    }
}

/// A list of GNOME button names, however long and in whatever order, places exactly those
/// buttons in that order.
pub proof fn lemma_gnome_buttons_named(bs: Seq<WindowButton>)
    ensures
        gnome_buttons(bs.map_values(|b: WindowButton| gnome_text(b))) == bs,
    decreases bs.len(),
{
    let parts = bs.map_values(|b: WindowButton| gnome_text(b));
    if bs.len() > 0 {
        lemma_gnome_buttons_named(bs.drop_last());
        assert(parts.drop_last() =~= bs.drop_last().map_values(|b: WindowButton| gnome_text(b)));
        let t = gnome_text(bs.last());
        assert(parts.last() == t);
        assert(!is_space(t[0]) && !is_space(t.last()));
        assert(trim_start(t) == t);
        assert(trim(t) == t);
        lemma_gnome_names(bs.last());
        assert(bs.drop_last().push(bs.last()) =~= bs);
    } else {
        assert(parts =~= Seq::<Seq<char>>::empty());
    }
}

/// The buttons named by comma-separated pieces, each trimmed; other names are skipped.
pub open spec fn gnome_buttons(parts: Seq<Seq<char>>) -> Seq<WindowButton>
    decreases parts.len(),
{
    if parts.len() == 0 {
        Seq::empty()
    } else {
        let r = gnome_buttons(parts.drop_last());
        match gnome_name(trim(parts.last())) {
            Some(b) => r.push(b),
            None => r,
        }
    }
}

/// GNOME's `button-layout`: buttons left of the first colon go on the left, the rest on the
/// right; a value without a colon is not a layout.
pub open spec fn gnome_layout_view(value: Seq<char>) -> Option<ControlsView> {
    let u = unquoted(value);
    match first_index(u, ':') {
        Some(p) => Some(
            ControlsView {
                style: WindowControlsStyle::Adwaita,
                left: gnome_buttons(split_on(u.take(p), ',')),
                right: gnome_buttons(split_on(u.skip(p + 1), ',')),
            },
        ),
        None => None,
    }
}

proof fn lemma_strip_start_skip(s: Seq<char>, a: int, hi: int, c: char)
    requires
        0 <= a < hi <= s.len(),
        s[a] == c,
    ensures
        strip_start(s.subrange(a, hi), c) == strip_start(s.subrange(a + 1, hi), c),
{
    assert(s.subrange(a, hi).drop_first() =~= s.subrange(a + 1, hi));
}

proof fn lemma_strip_end_skip(s: Seq<char>, a: int, b: int, c: char)
    requires
        0 <= a < b <= s.len(),
        s[b - 1] == c,
    ensures
        strip_end(s.subrange(a, b), c) == strip_end(s.subrange(a, b - 1), c),
{
    assert(s.subrange(a, b).drop_last() =~= s.subrange(a, b - 1));
}

/// The bounds of `v[lo..hi].trim_matches(c)` inside `v`.
fn strip_range(v: &[char], lo: usize, hi: usize, c: char) -> (r: (usize, usize))
    requires
        lo <= hi <= v@.len(),
    ensures
        lo <= r.0 <= r.1 <= hi,
        v@.subrange(r.0 as int, r.1 as int) == strip_end(
            strip_start(v@.subrange(lo as int, hi as int), c),
            c,
        ),
{
    let ghost s = v@.subrange(lo as int, hi as int);
    let mut a: usize = lo;
    while a < hi && v[a] == c
        invariant
            hi <= v@.len(),
            lo <= a <= hi,
            s == v@.subrange(lo as int, hi as int),
            strip_start(s, c) == strip_start(v@.subrange(a as int, hi as int), c),
        decreases hi - a,
    {
        proof {
            lemma_strip_start_skip(v@, a as int, hi as int, c);
        }
        a = a + 1;
    }
    let ghost t = v@.subrange(a as int, hi as int);
    assert(strip_start(s, c) == t);
    let mut b: usize = hi;
    while b > a && v[b - 1] == c
        invariant
            hi <= v@.len(),
            lo <= a <= b <= hi,
            t == v@.subrange(a as int, hi as int),
            strip_start(s, c) == t,
            strip_end(t, c) == strip_end(v@.subrange(a as int, b as int), c),
        decreases b,
    {
        proof {
            lemma_strip_end_skip(v@, a as int, b as int, c);
        }
        b = b - 1;
    }
    proof {
        let u = v@.subrange(a as int, b as int);
        if u.len() > 0 {
            assert(u.last() == v@[b - 1]);
        }
    }
    (a, b)
}

/// The buttons named in `v[lo..hi]`, split on commas.
fn gnome_side(v: &[char], lo: usize, hi: usize) -> (r: Vec<WindowButton>)
    requires
        lo <= hi <= v@.len(),
    ensures
        r@ == gnome_buttons(split_on(v@.subrange(lo as int, hi as int), ',')),
{
    let parts = split_ranges(v, lo, hi, ',');
    let ghost all = split_on(v@.subrange(lo as int, hi as int), ',');
    let minimize = chars_of("minimize");
    let maximize = chars_of("maximize");
    let close = chars_of("close");
    let mut r: Vec<WindowButton> = Vec::new();
    let mut i: usize = 0;
    while i < parts.len()
        invariant
            lo <= hi <= v@.len(),
            all == split_on(v@.subrange(lo as int, hi as int), ','),
            parts@.len() == all.len(),
            minimize@ == "minimize"@,
            maximize@ == "maximize"@,
            close@ == "close"@,
            forall|k: int|
                0 <= k < parts@.len() ==> {
                    &&& lo <= (#[trigger] parts@[k]).0 <= parts@[k].1 <= hi
                    &&& v@.subrange(parts@[k].0 as int, parts@[k].1 as int) == all[k]
                },
            i <= parts@.len(),
            r@ == gnome_buttons(all.take(i as int)),
        decreases parts@.len() - i,
    {
        assert(all.take(i + 1).drop_last() =~= all.take(i as int));
        assert(all.take(i + 1).last() == all[i as int]);
        let (s, e) = parts[i];
        let (a, b) = trim_range(v, s, e);
        if range_eq(v, a, b, minimize.as_slice()) {
            r.push(WindowButton::Minimize);
        } else if range_eq(v, a, b, maximize.as_slice()) {
            r.push(WindowButton::Maximize);
        } else if range_eq(v, a, b, close.as_slice()) {
            r.push(WindowButton::Close);
        }
        i = i + 1;
    }
    assert(all.take(all.len() as int) =~= all);
    r
}

/// GNOME's `button-layout`, printed by `gsettings` as `'appmenu:minimize,maximize,close'`:
/// buttons left of the colon go on the left.
pub fn gnome_layout(value: &str) -> (r: Option<SystemWindowControls>)
    ensures
        match gnome_layout_view(value@) {
            Some(c) => r is Some && r->0@ == c,
            None => r is None,
        },
{
    let v = chars_of(value);
    let n = v.len();
    assert(v@.subrange(0, n as int) =~= v@);
    let (ta, tb) = trim_range(v.as_slice(), 0, n);
    let (a, b) = strip_range(v.as_slice(), ta, tb, '\'');
    let ghost u = unquoted(value@);
    assert(v@.subrange(ta as int, tb as int) == trim(value@));
    assert(v@.subrange(a as int, b as int) == u);
    match find_in_range(v.as_slice(), a, b, ':') {
        Some(p) => {
            proof {
                lemma_ini_scan_step(v@, a as int, p as int, b as int);
            }
            let r = SystemWindowControls {
                style: WindowControlsStyle::Adwaita,
                left: gnome_side(v.as_slice(), a, p),
                right: gnome_side(v.as_slice(), p + 1, b),
            };
            assert(first_index(u, ':') == Some(p - a));
            assert(u.take(p - a) == v@.subrange(a as int, p as int));
            assert(r@ =~= gnome_layout_view(value@)->0);
            Some(r)
        },
        None => None,
    }
}

// ---------------------------------------------------------------------------------------------
// Detection

/// ASCII case folding of one character, as `eq_ignore_ascii_case` compares.
pub open spec fn ascii_fold(c: char) -> u32 {
    let u = c as u32;
    if 65 <= u && u <= 90 {
        (u + 32) as u32
    } else {
        u
    }
}

/// `a.eq_ignore_ascii_case(b)`.
pub open spec fn ascii_ci_eq(a: Seq<char>, b: Seq<char>) -> bool {
    &&& a.len() == b.len()
    &&& forall|i: int| 0 <= i < a.len() ==> ascii_fold(#[trigger] a[i]) == ascii_fold(b[i])
}

/// `XDG_CURRENT_DESKTOP` names KDE among its colon-separated entries.
pub open spec fn names_kde(desktop: Seq<char>) -> bool {
    let parts = split_on(desktop, ':');
    exists|i: int| 0 <= i < parts.len() && ascii_ci_eq(#[trigger] parts[i], "KDE"@)
}

fn fold(c: char) -> (r: u32)
    ensures
        r == ascii_fold(c),
{
    let u = c as u32;
    if 65 <= u && u <= 90 {
        u + 32
    } else {
        u
    }
}

fn range_eq_ignore_ascii_case(v: &[char], a: usize, b: usize, w: &[char]) -> (r: bool)
    requires
        a <= b <= v@.len(),
    ensures
        r == ascii_ci_eq(v@.subrange(a as int, b as int), w@),
{
    if b - a != w.len() {
        return false;
    }
    let mut i: usize = 0;
    while i < w.len()
        invariant
            a <= b <= v@.len(),
            b - a == w@.len(),
            i <= w@.len(),
            forall|j: int| 0 <= j < i ==> ascii_fold(v@[a + j]) == ascii_fold(w@[j]),
        decreases w@.len() - i,
    {
        if fold(v[a + i]) != fold(w[i]) {
            assert(v@.subrange(a as int, b as int)[i as int] == v@[a + i]);
            return false;
        }
        i = i + 1;
    }
    assert forall|j: int| 0 <= j < w@.len() implies ascii_fold(
        #[trigger] v@.subrange(a as int, b as int)[j],
    ) == ascii_fold(w@[j]) by {
        assert(v@.subrange(a as int, b as int)[j] == v@[a + j]);
    }
    true
}

/// Whether the desktop named by `XDG_CURRENT_DESKTOP` is KDE.
pub fn is_kde_desktop(desktop: &str) -> (r: bool)
    ensures
        r == names_kde(desktop@),
{
    let v = chars_of(desktop);
    let n = v.len();
    assert(v@.subrange(0, n as int) =~= v@);
    let parts = split_ranges(v.as_slice(), 0, n, ':');
    let ghost all = split_on(v@, ':');
    let kde = chars_of("KDE");
    let mut i: usize = 0;
    while i < parts.len()
        invariant
            v@ == desktop@,
            n == v@.len(),
            all == split_on(v@, ':'),
            kde@ == "KDE"@,
            parts@.len() == all.len(),
            forall|k: int|
                0 <= k < parts@.len() ==> {
                    &&& 0 <= (#[trigger] parts@[k]).0 <= parts@[k].1 <= n
                    &&& v@.subrange(parts@[k].0 as int, parts@[k].1 as int) == all[k]
                },
            i <= parts@.len(),
            forall|k: int| 0 <= k < i ==> !ascii_ci_eq(#[trigger] all[k], "KDE"@),
        decreases parts@.len() - i,
    {
        let (s, e) = parts[i];
        if range_eq_ignore_ascii_case(v.as_slice(), s, e, kde.as_slice()) {
            assert(ascii_ci_eq(all[i as int], "KDE"@));
            return true;
        }
        i = i + 1;
    }
    false
}

/// What `system` settles on for the desktop it was given.
pub open spec fn system_view(
    platform: Platform,
    desktop: Seq<char>,
    kde_files: Seq<Seq<char>>,
    gnome_setting: Option<Seq<char>>,
) -> ControlsView {
    match platform {
        Platform::Linux => if names_kde(desktop) {
            kde_layout_view(kde_files)
        } else {
            match gnome_setting {
                Some(value) => match gnome_layout_view(value) {
                    Some(c) => c,
                    None => right_view(WindowControlsStyle::Adwaita),
                },
                None => right_view(WindowControlsStyle::Adwaita),
            }
        },
        Platform::Windows => right_view(WindowControlsStyle::Windows),
        Platform::Macos => ControlsView {
            style: WindowControlsStyle::Macos,
            left: seq![WindowButton::Close, WindowButton::Minimize, WindowButton::Maximize],
            right: Seq::empty(),
        },
        Platform::Other => right_view(WindowControlsStyle::Minimal),
    }
}

/// The window controls of the running desktop. On Linux, KDE is recognised from
/// `XDG_CURRENT_DESKTOP` and laid out from its `kwinrc` files (most specific first);
/// any other desktop is taken to be GNOME, laid out from its `button-layout` setting as
/// `gsettings` printed it, with Adwaita's default where that is missing or unreadable.
pub fn system(
    platform: Platform,
    desktop: &str,
    kde_files: &[String],
    gnome_setting: Option<&str>,
) -> (r: SystemWindowControls)
    ensures
        r@ == system_view(
            platform,
            desktop@,
            string_views(kde_files@),
            match gnome_setting {
                Some(s) => Some(s@),
                None => None,
            },
        ),
{
    match platform {
        Platform::Linux => {
            if is_kde_desktop(desktop) {
                kde_layout(kde_files)
            } else {
                let layout = match gnome_setting {
                    Some(value) => gnome_layout(value),
                    None => None,
                };
                match layout {
                    Some(controls) => controls,
                    None => SystemWindowControls::right(WindowControlsStyle::Adwaita),
                }
            }
        },
        Platform::Windows => SystemWindowControls::right(WindowControlsStyle::Windows),
        Platform::Macos => {
            let mut left: Vec<WindowButton> = Vec::new();
            left.push(WindowButton::Close);
            left.push(WindowButton::Minimize);
            left.push(WindowButton::Maximize);
            let r = SystemWindowControls { style: WindowControlsStyle::Macos, left, right: Vec::new() };
            assert(r@.left =~= seq![WindowButton::Close, WindowButton::Minimize, WindowButton::Maximize]);
            assert(r@.right =~= Seq::<WindowButton>::empty());
            r
        },
        Platform::Other => SystemWindowControls::right(WindowControlsStyle::Minimal),
    }
}

} // verus!
