//! What the system says: resident memory, its log line, and the installed fonts.

use crate::text::{
    contains, decimal, lowercase, matches_at, occurs, push_decimal, push_wide, read_unsigned,
    stands_at, to_chars, unsigned_text, white_space,
};
use vstd::prelude::*;

verus! {

/// The first place from `i` on that is not white space.
pub open spec fn skip_space(s: Seq<char>, i: int) -> int
    decreases s.len() - i,
{
    if i < s.len() && white_space(s[i]) {
        skip_space(s, i + 1)
    } else {
        i
    }
}

/// The first place from `i` on that is white space.
pub open spec fn skip_word(s: Seq<char>, i: int) -> int
    decreases s.len() - i,
{
    if i < s.len() && !white_space(s[i]) {
        skip_word(s, i + 1)
    } else {
        i
    }
}

/// The second word of a text.
pub open spec fn second_word(s: Seq<char>) -> Option<Seq<char>> {
    let from = skip_space(s, skip_word(s, skip_space(s, 0)));
    let to = skip_word(s, from);
    if from < to {
        Some(s.subrange(from, to))
    } else {
        None
    }
}

/// The resident pages that a status line of the kernel counts: its second number.
pub open spec fn resident_pages(statm: Seq<char>) -> Option<nat> {
    match second_word(statm) {
        Some(word) => unsigned_text(word, u64::MAX as nat),
        None => None,
    }
}

fn after_space(s: &Vec<char>, i: usize) -> (j: usize)
    requires
        i <= s.len(),
    ensures
        j == skip_space(s@, i as int),
        i <= j <= s.len(),
{
    let mut j: usize = i;
    while j < s.len() && s[j].is_whitespace()
        invariant
            i <= j <= s.len(),
            skip_space(s@, i as int) == skip_space(s@, j as int),
        decreases s.len() - j,
    {
        j = j + 1;
    }
    j
}

fn after_word(s: &Vec<char>, i: usize) -> (j: usize)
    requires
        i <= s.len(),
    ensures
        j == skip_word(s@, i as int),
        i <= j <= s.len(),
{
    let mut j: usize = i;
    while j < s.len() && !s[j].is_whitespace()
        invariant
            i <= j <= s.len(),
            skip_word(s@, i as int) == skip_word(s@, j as int),
        decreases s.len() - j,
    {
        j = j + 1;
    }
    j
}

/// Resident memory in megabytes, from the kernel's status line. Pages are four kilobytes.
pub fn process_rss_mb(statm: &str) -> (mb: Option<u64>)
    ensures
        match mb {
            Some(n) => resident_pages(statm@) matches Some(pages) && n == pages * 4096 / 1_048_576,
            None => resident_pages(statm@) is None,
        },
{
    let chars = to_chars(statm);
    let from: usize = after_space(&chars, after_word(&chars, after_space(&chars, 0)));
    let to: usize = after_word(&chars, from);
    if from == to {
        return None;
    }
    match read_unsigned(&chars, from, to) {
        Some(pages) => Some(pages / 256),
        None => None,
    }
}

/// What the memory log records.
#[derive(Clone, Copy, PartialEq, Eq, Structural, Debug)]
pub struct MemStats {
    pub secs: u64,
    pub mb: u64,
    pub resident: usize,
    pub ready: usize,
    pub free: usize,
    pub pool: u32,
    pub inflight: usize,
    pub full_for: Option<usize>,
    pub gif_frames: usize,
    pub video: bool,
    pub wall_gifs: usize,
    pub wall_frames: u128,
    pub total: usize,
}

/// An optional number as the log shows it.
pub open spec fn optional_text(n: Option<usize>) -> Seq<char> {
    match n {
        Some(n) => "Some("@ + decimal(n as nat) + ")"@,
        None => "None"@,
    }
}

/// One line of the memory log. Atlases live in the layers of their tiles, so that they hold no
/// memory of their own.
pub open spec fn memory_text(m: MemStats) -> Seq<char> {
    decimal(m.secs as nat) + " | RSS "@ + decimal(m.mb as nat) + " MB | resident "@ + decimal(
        m.resident as nat,
    ) + " (ready "@ + decimal(m.ready as nat) + ") | free_layers "@ + decimal(m.free as nat) + "/"@
        + decimal(m.pool as nat) + " | inflight "@ + decimal(m.inflight as nat) + " | full_for "@
        + optional_text(m.full_for) + " gif_frames "@ + decimal(m.gif_frames as nat) + " video "@
        + (if m.video {
        "true"@
    } else {
        "false"@
    }) + " | wall_gifs "@ + decimal(m.wall_gifs as nat) + " ("@ + decimal(m.wall_frames as nat)
        + "f, 0MB) | total "@ + decimal(m.total as nat) + "\n"@
}

/// One line of the memory log.
pub fn memory_line(m: MemStats) -> (line: String)
    ensures
        line@ == memory_text(m),
{
    let mut line = String::new();
    push_decimal(&mut line, m.secs);
    assert(line@ =~= decimal(m.secs as nat));
    line.append(" | RSS ");
    push_decimal(&mut line, m.mb);
    line.append(" MB | resident ");
    push_decimal(&mut line, m.resident as u64);
    line.append(" (ready ");
    push_decimal(&mut line, m.ready as u64);
    line.append(") | free_layers ");
    push_decimal(&mut line, m.free as u64);
    line.append("/");
    push_decimal(&mut line, m.pool as u64);
    line.append(" | inflight ");
    push_decimal(&mut line, m.inflight as u64);
    line.append(" | full_for ");
    let mut open = String::new();
    match m.full_for {
        Some(n) => {
            open.append("Some(");
            push_decimal(&mut open, n as u64);
            open.append(")");
        },
        None => {
            open.append("None");
        },
    }
    assert(open@ =~= optional_text(m.full_for));
    line.append(open.as_str());
    line.append(" gif_frames ");
    push_decimal(&mut line, m.gif_frames as u64);
    line.append(" video ");
    line.append(
        if m.video {
            "true"
        } else {
            "false"
        },
    );
    line.append(" | wall_gifs ");
    push_decimal(&mut line, m.wall_gifs as u64);
    line.append(" (");
    push_wide(&mut line, m.wall_frames);
    line.append("f, 0MB) | total ");
    push_decimal(&mut line, m.total as u64);
    line.append("\n");
    line
}

/// Words in the names of fonts that are not made for Latin text.
pub open spec fn foreign_words() -> Seq<Seq<char>> {
    seq![
        "cjk"@,
        "japanese"@,
        "korean"@,
        "chinese"@,
        "thai"@,
        "arabic"@,
        "hebrew"@,
        "devanagari"@,
        "emoji"@,
        "symbol"@,
        "math"@,
        "mono"@,
    ]
}

/// Fonts to draw text with, best first.
pub open spec fn preferred_fonts() -> Seq<Seq<char>> {
    seq![
        "dejavu sans"@,
        "liberation sans"@,
        "noto sans"@,
        "carlito"@,
        "arimo"@,
        "arial"@,
        "roboto"@,
        "cantarell"@,
        "ubuntu"@,
        "open sans"@,
        "helvetica"@,
    ]
}

/// A font for Latin text, by its lower-case name.
pub open spec fn latin(lower: Seq<char>) -> bool {
    forall|k: int| 0 <= k < foreign_words().len() ==> !occurs(lower, #[trigger] foreign_words()[k])
}

/// A font of a preferred family: the family itself, or a Latin font whose name starts with it.
pub open spec fn of_family(lower: Seq<char>, family: Seq<char>) -> bool {
    lower == family || stands_at(lower, family, 0) && latin(lower)
}

/// Any Latin font without serifs.
pub open spec fn sans(lower: Seq<char>) -> bool {
    occurs(lower, "sans"@) && latin(lower)
}

/// How good a font is, from its lower-case name: the first preferred family from `f` on that it
/// is of, then fonts without serifs, then Latin fonts, and then those that are of no use.
pub open spec fn font_rank(lower: Seq<char>, f: int) -> int
    decreases 11 - f,
{
    if f < 11 {
        if of_family(lower, preferred_fonts()[f]) {
            f
        } else {
            font_rank(lower, f + 1)
        }
    } else if sans(lower) {
        11
    } else if latin(lower) {
        12
    } else {
        13
    }
}

/// The lower-case names of fonts.
pub open spec fn lower_names(names: Seq<String>) -> Seq<Seq<char>> {
    names.map_values(|s: String| lowercase(s@))
}

/// `at` is the font that stands for "sans-serif": the best of the useful ones, and of equally
/// good ones the first.
pub open spec fn is_sans_choice(names: Seq<Seq<char>>, at: int) -> bool {
    &&& 0 <= at < names.len()
    &&& font_rank(names[at], 0) < 13
    &&& forall|k: int|
        0 <= k < names.len() ==> font_rank(names[at], 0) <= font_rank(#[trigger] names[k], 0)
    &&& forall|k: int|
        0 <= k < at ==> font_rank(names[at], 0) < font_rank(#[trigger] names[k], 0)
}

/// What a list of words says.
pub open spec fn words_view(words: Seq<&'static str>) -> Seq<Seq<char>> {
    words.map_values(|w: &'static str| w@)
}

fn is_latin(lower: &Vec<char>) -> (yes: bool)
    ensures
        yes == latin(lower@),
{
    let words: Vec<&'static str> = vec![
        "cjk", "japanese", "korean", "chinese", "thai", "arabic", "hebrew", "devanagari", "emoji",
        "symbol", "math", "mono",
    ];
    assert(words_view(words@) =~= foreign_words());
    let ghost all = words_view(words@);
    let mut i: usize = 0;
    while i < words.len()
        invariant
            i <= words.len(),
            all == words_view(words@),
            all == foreign_words(),
            forall|k: int| 0 <= k < i ==> !occurs(lower@, #[trigger] foreign_words()[k]),
        decreases words.len() - i,
    {
        assert(all[i as int] == words@[i as int]@);
        let word = to_chars(words[i]);
        if contains(lower, &word) {
            assert(occurs(lower@, foreign_words()[i as int]));
            return false;
        }
        i = i + 1;
    }
    true
}

fn rank_font(lower: &Vec<char>) -> (rank: usize)
    ensures
        rank == font_rank(lower@, 0),
        rank <= 13,
{
    let fonts: Vec<&'static str> = vec![
        "dejavu sans", "liberation sans", "noto sans", "carlito", "arimo", "arial", "roboto",
        "cantarell", "ubuntu", "open sans", "helvetica",
    ];
    assert(words_view(fonts@) =~= preferred_fonts());
    let ghost all = words_view(fonts@);
    let fit: bool = is_latin(lower);
    let mut f: usize = 0;
    while f < fonts.len()
        invariant
            f <= fonts.len() == 11,
            all == words_view(fonts@),
            all == preferred_fonts(),
            fit == latin(lower@),
            font_rank(lower@, 0) == font_rank(lower@, f as int),
        decreases fonts.len() - f,
    {
        assert(all[f as int] == fonts@[f as int]@);
        let family = to_chars(fonts[f]);
        let starts: bool = matches_at(lower, &family, 0);
        if starts && (lower.len() == family.len() || fit) {
            assert(lower@.len() == family@.len() ==> lower@.subrange(0, family@.len() as int)
                =~= lower@);
            return f;
        }
        assert(lower@ != family@) by {
            if lower@ == family@ {
                assert(lower@.subrange(0, family@.len() as int) =~= lower@);
            }
        }
        f = f + 1;
    }
    let serifless = to_chars("sans");
    if fit && contains(lower, &serifless) {
        11
    } else if fit {
        12
    } else {
        13
    }
}

/// Chooses the font that stands for "sans-serif" from the installed ones: a Latin text font, so
/// that digits and letters show. `None` where there is no such font.
pub fn sans_font(names: &Vec<String>) -> (choice: Option<usize>)
    ensures
        match choice {
            Some(at) => is_sans_choice(lower_names(names@), at as int),
            None => forall|k: int|
                0 <= k < names.len() ==> font_rank(
                    #[trigger] lower_names(names@)[k],
                    0,
                ) >= 13,
        },
{
    let ghost all = lower_names(names@);
    let mut best: usize = 13;
    let mut at: usize = 0;
    let mut i: usize = 0;
    while i < names.len()
        invariant
            i <= names.len(),
            best <= 13,
            all == lower_names(names@),
            forall|k: int| 0 <= k < i ==> best <= font_rank(#[trigger] all[k], 0),
            best < 13 ==> at < i && font_rank(all[at as int], 0) == best,
            best < 13 ==> forall|k: int| 0 <= k < at ==> best < font_rank(#[trigger] all[k], 0),
        decreases names.len() - i,
    {
        let lower = to_chars(names[i].as_str().to_lowercase().as_str());
        assert(all[i as int] == lower@);
        let rank: usize = rank_font(&lower);
        if rank < best {
            best = rank;
            at = i;
        }
        i = i + 1;
    }
    if best < 13 {
        Some(at)
    } else {
        None
    }
}

} // verus!
