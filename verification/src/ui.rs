//! View-state options and small helpers of the surrounding application:
//! plain data the panels read and write, with no behavior beyond labels
//! and defaults.

use vstd::prelude::*;

verus! {

/// UI mode: Simple for beginners, Pro for advanced users.
#[derive(Clone, Copy, PartialEq, Eq, Structural, Debug)]
pub enum UiMode {
    Simple,
    Pro,
}

impl Default for UiMode {
    fn default() -> (r: Self)
        ensures
            r == UiMode::Simple,
    {
        UiMode::Simple
    }
}

/// Right panel tab selection.
#[derive(Clone, Copy, PartialEq, Eq, Structural, Debug)]
pub enum RightPanelTab {
    Presets,
    Motion,
    Quality,
}

impl Default for RightPanelTab {
    fn default() -> (r: Self)
        ensures
            r == RightPanelTab::Presets,
    {
        RightPanelTab::Presets
    }
}

/// Compare view mode.
#[derive(Clone, Copy, PartialEq, Eq, Structural, Debug)]
pub enum CompareView {
    Off,
    BeforeAfter,
    Split,
}

impl Default for CompareView {
    fn default() -> (r: Self)
        ensures
            r == CompareView::Off,
    {
        CompareView::Off
    }
}

/// Playback speed options.
#[derive(Clone, Copy, PartialEq, Eq, Structural, Debug)]
pub enum PlaybackSpeed {
    Quarter,
    Half,
    Normal,
    Double,
}

impl Default for PlaybackSpeed {
    fn default() -> (r: Self)
        ensures
            r == PlaybackSpeed::Normal,
    {
        PlaybackSpeed::Normal
    }
}

impl PlaybackSpeed {
    /// The speed multiplier, in percent of normal speed.
    pub fn multiplier_percent(&self) -> (r: u32)
        ensures
            match self {
                PlaybackSpeed::Quarter => r == 25,
                PlaybackSpeed::Half => r == 50,
                PlaybackSpeed::Normal => r == 100,
                PlaybackSpeed::Double => r == 200,
            },
    {
        match self {
            PlaybackSpeed::Quarter => 25,
            PlaybackSpeed::Half => 50,
            PlaybackSpeed::Normal => 100,
            PlaybackSpeed::Double => 200,
        }
    }

    /// Display label of the speed.
    pub fn label(&self) -> (r: &'static str)
        ensures
            match self {
                PlaybackSpeed::Quarter => r@ == "0.25\u{d7}"@,
                PlaybackSpeed::Half => r@ == "0.5\u{d7}"@,
                PlaybackSpeed::Normal => r@ == "1\u{d7}"@,
                PlaybackSpeed::Double => r@ == "2\u{d7}"@,
            },
    {
        match self {
            PlaybackSpeed::Quarter => "0.25\u{d7}",
            PlaybackSpeed::Half => "0.5\u{d7}",
            PlaybackSpeed::Normal => "1\u{d7}",
            PlaybackSpeed::Double => "2\u{d7}",
        }
    }
}

/// Index of the last `'.'` in `s`, or `-1` when there is none.
pub open spec fn last_dot(s: Seq<char>) -> int
    decreases s.len(),
{
    if s.len() == 0 {
        -1
    } else if s.last() == '.' {
        s.len() - 1
    } else {
        last_dot(s.drop_last())
    }
}

/// The stem of a file name: everything before the last `'.'`, except that
/// a dot in first position (a hidden file) is no extension separator.
pub open spec fn name_stem(s: Seq<char>) -> Seq<char> {
    if last_dot(s) > 0 {
        s.take(last_dot(s))
    } else {
        s
    }
}

/// The default preset name for a file name: its stem, or `"untitled"` when
/// that is empty, capped at 20 characters.
pub open spec fn default_preset_name(s: Seq<char>) -> Seq<char> {
    let stem = name_stem(s);
    let base = if stem.len() == 0 {
        "untitled"@
    } else {
        stem
    };
    if base.len() > 20 {
        base.take(20)
    } else {
        base
    }
}

/// `last_dot` returns a position of a dot, below the length, and no dot
/// stands to its right.
proof fn lemma_last_dot(s: Seq<char>)
    ensures
        -1 <= last_dot(s) < s.len(),
        last_dot(s) >= 0 ==> s[last_dot(s)] == '.',
        forall|j: int| last_dot(s) < j < s.len() ==> s[j] != '.',
    decreases s.len(),
{
    if s.len() > 0 && s.last() != '.' {
        lemma_last_dot(s.drop_last());
        assert forall|j: int| last_dot(s) < j < s.len() implies s[j] != '.' by {
            if j < s.len() - 1 {
                assert(s.drop_last()[j] == s[j]);
            }
        }
    }
}

/// Derives a preset name from a file name: drops the extension, falls back
/// to `"untitled"`, and caps the result at 20 characters.
pub fn get_default_preset_name(n: String) -> (r: String)
    ensures
        r@ == default_preset_name(n@),
{
    let s = n.as_str();
    let len = s.unicode_len();
    proof {
        lemma_last_dot(n@);
    }
    // scan backward for the last dot
    let mut found = false;
    let mut dot: usize = 0;
    let mut i = len;
    while i > 0
        invariant
            i <= len,
            len == s@.len(),
            s@ == n@,
            if last_dot(s@) >= i {
                found && dot == last_dot(s@)
            } else {
                !found
            },
        decreases i,
    {
        proof {
            lemma_last_dot(s@);
        }
        i = i - 1;
        if !found && s.get_char(i) == '.' {
            found = true;
            dot = i;
            proof {
                lemma_last_dot_found(s@, i as int);
            }
        }
    }
    let stem_len: usize = if found && dot > 0 {
        dot
    } else {
        len
    };
    if stem_len == 0 {
        let r = "untitled".to_owned();
        proof {
            reveal_strlit("untitled");
        }
        return r;
    }
    let capped: usize = if stem_len > 20 {
        20
    } else {
        stem_len
    };
    let r = s.substring_char(0, capped).to_owned();
    proof {
        assert(r@ =~= default_preset_name(n@));
    }
    r
}

/// A dot with none to its right is the last dot.
proof fn lemma_last_dot_found(s: Seq<char>, i: int)
    requires
        0 <= i < s.len(),
        s[i] == '.',
        forall|j: int| i < j < s.len() ==> s[j] != '.',
    ensures
        last_dot(s) == i,
    decreases s.len(),
{
    if i == s.len() - 1 {
    } else {
        assert(s.last() != '.');
        assert forall|j: int| i < j < s.drop_last().len() implies s.drop_last()[j] != '.' by {
            assert(s.drop_last()[j] == s[j]);
        }
        assert(s.drop_last()[i] == s[i]);
        lemma_last_dot_found(s.drop_last(), i);
    }
}

} // verus!
