//! Names of the phrases of a track's structure analysis.
use vstd::prelude::*;
use vstd::string::StringExecFns;
use crate::text::same_text;

verus! {

/// The mood a track's phrase analysis was made in.
#[derive(Clone, Copy, Debug, PartialEq, Eq, Structural)]
pub enum Mood {
    High,
    Mid,
    Low,
}

/// One phrase entry: its kind and the style flags that subdivide it.
#[derive(Clone, Copy, Debug, PartialEq, Eq, Structural)]
pub struct Phrase {
    pub kind: u16,
    pub k1: u8,
    pub k2: u8,
    pub k3: u8,
}

/// Phrase names by mood (low, mid, high), then by phrase kind.
pub open spec fn phrase_table() -> Seq<Seq<Seq<char>>> {
    seq![
        seq![
            "Intro"@, "Verse 1"@, "Verse 1"@, "Verse 1"@, "Verse 2"@, "Verse 2"@, "Verse 2"@,
            "Bridge"@, "Chorus"@, "Outro"@,
        ],
        seq![
            "Intro"@, "Verse 1"@, "Verse 2"@, "Verse 3"@, "Verse 4"@, "Verse 5"@, "Verse 6"@,
            "Bridge"@, "Chorus"@, "Outro"@,
        ],
        seq![
            "Intro 1"@, "Intro 2"@, "Up 1"@, "Up 2"@, "Up 3"@, "Down"@, "Chorus 1"@,
            "Chorus 2"@, "Outro 1"@, "Outro 2"@,
        ],
    ]
}

/// Phrase names of the high mood, by phrase group, then by style.
pub open spec fn high_phrase_table() -> Seq<Seq<Seq<char>>> {
    seq![
        seq!["Intro 2"@, "Intro 1"@],
        seq!["Up 1"@, "Up 2"@, "Up 3"@],
        seq!["Down"@],
        seq!["Chorus 2"@, "Chorus 1"@],
        seq!["Outro 2"@, "Outro 1"@],
    ]
}

/// The row of the phrase table for a mood.
pub open spec fn mood_row(mood: Mood) -> int {
    match mood {
        Mood::Low => 0,
        Mood::Mid => 1,
        Mood::High => 2,
    }
}

/// The group of the high-mood table for a phrase kind, if the kind has one.
pub open spec fn high_group(kind: int) -> Option<int> {
    if kind == 1 {
        Some(0)
    } else if kind == 2 {
        Some(1)
    } else if kind == 3 {
        Some(2)
    } else if kind == 5 {
        Some(3)
    } else if kind == 6 {
        Some(4)
    } else {
        None
    }
}

/// The style index of a high-mood phrase.
pub open spec fn high_style(p: Phrase) -> int {
    p.k1 + 2 * p.k2 + p.k3
}

/// Whether the tables name the phrase.
pub open spec fn phrase_named(mood: Mood, p: Phrase) -> bool {
    if mood == Mood::High {
        &&& high_group(p.kind as int) is Some
        &&& high_style(p) < high_phrase_table()[high_group(p.kind as int).unwrap()].len()
    } else {
        1 <= p.kind <= 10
    }
}

/// The name of a phrase the tables name.
pub open spec fn phrase_name(mood: Mood, p: Phrase) -> Seq<char> {
    if mood == Mood::High {
        high_phrase_table()[high_group(p.kind as int).unwrap()][high_style(p)]
    } else {
        phrase_table()[mood_row(mood)][p.kind - 1]
    }
}

/// The phrase category of a name: 1 intro, 2 verse or up, 3 chorus, 4 bridge or
/// down, 5 outro, 0 anything else.
pub open spec fn phrase_index(name: Seq<char>) -> i32 {
    if name == "Intro"@ || name == "Intro 1"@ || name == "Intro 2"@ {
        1
    } else if name == "Verse 1"@ || name == "Verse 2"@ || name == "Verse 3"@ || name == "Verse 4"@
        || name == "Verse 5"@ || name == "Verse 6"@ || name == "Up 1"@ || name == "Up 2"@ || name
        == "Up 3"@ {
        2
    } else if name == "Chorus"@ || name == "Chorus 1"@ || name == "Chorus 2"@ {
        3
    } else if name == "Bridge"@ || name == "Down"@ {
        4
    } else if name == "Outro"@ || name == "Outro 1"@ || name == "Outro 2"@ {
        5
    } else {
        0
    }
}

/// Looks up the names of phrases.
pub struct PhraseParser {
    phrase_names: Vec<Vec<String>>,
    hi_phrase_names: Vec<Vec<String>>,
}

/// The names held in a table of strings.
pub open spec fn table_view(t: Vec<Vec<String>>) -> Seq<Seq<Seq<char>>> {
    t@.map_values(|row: Vec<String>| row@.map_values(|s: String| s@))
}

impl PhraseParser {
    pub fn new() -> (r: Self)
        ensures
            r.wf(),
    {
        let mut low: Vec<String> = Vec::new();
        low.push(String::from_str("Intro"));
        low.push(String::from_str("Verse 1"));
        low.push(String::from_str("Verse 1"));
        low.push(String::from_str("Verse 1"));
        low.push(String::from_str("Verse 2"));
        low.push(String::from_str("Verse 2"));
        low.push(String::from_str("Verse 2"));
        low.push(String::from_str("Bridge"));
        low.push(String::from_str("Chorus"));
        low.push(String::from_str("Outro"));
        let mut mid: Vec<String> = Vec::new();
        mid.push(String::from_str("Intro"));
        mid.push(String::from_str("Verse 1"));
        mid.push(String::from_str("Verse 2"));
        mid.push(String::from_str("Verse 3"));
        mid.push(String::from_str("Verse 4"));
        mid.push(String::from_str("Verse 5"));
        mid.push(String::from_str("Verse 6"));
        mid.push(String::from_str("Bridge"));
        mid.push(String::from_str("Chorus"));
        mid.push(String::from_str("Outro"));
        let mut high: Vec<String> = Vec::new();
        high.push(String::from_str("Intro 1"));
        high.push(String::from_str("Intro 2"));
        high.push(String::from_str("Up 1"));
        high.push(String::from_str("Up 2"));
        high.push(String::from_str("Up 3"));
        high.push(String::from_str("Down"));
        high.push(String::from_str("Chorus 1"));
        high.push(String::from_str("Chorus 2"));
        high.push(String::from_str("Outro 1"));
        high.push(String::from_str("Outro 2"));
        let mut intro: Vec<String> = Vec::new();
        intro.push(String::from_str("Intro 2"));
        intro.push(String::from_str("Intro 1"));
        let mut up: Vec<String> = Vec::new();
        up.push(String::from_str("Up 1"));
        up.push(String::from_str("Up 2"));
        up.push(String::from_str("Up 3"));
        let mut down: Vec<String> = Vec::new();
        down.push(String::from_str("Down"));
        let mut chorus: Vec<String> = Vec::new();
        chorus.push(String::from_str("Chorus 2"));
        chorus.push(String::from_str("Chorus 1"));
        let mut outro: Vec<String> = Vec::new();
        outro.push(String::from_str("Outro 2"));
        outro.push(String::from_str("Outro 1"));
        let phrase_names = vec![low, mid, high];
        let hi_phrase_names = vec![intro, up, down, chorus, outro];
        let r = PhraseParser { phrase_names, hi_phrase_names };
        assert(table_view(r.phrase_names) =~~= phrase_table());
        assert(table_view(r.hi_phrase_names) =~~= high_phrase_table());
        r
    }

    /// The parser holds the phrase tables.
    pub closed spec fn wf(&self) -> bool {
        &&& table_view(self.phrase_names) == phrase_table()
        &&& table_view(self.hi_phrase_names) == high_phrase_table()
    }

    /// Whether the tables name the phrase.
    pub fn has_phrase_name(&self, mood: &Mood, phrase: &Phrase) -> (r: bool)
        ensures
            r == phrase_named(*mood, *phrase),
    {
        if *mood == Mood::High {
            let group: usize = match phrase.kind {
                1 => 0,
                2 => 1,
                3 => 2,
                5 => 3,
                6 => 4,
                _ => return false,
            };
            let style = phrase.k1 as usize + 2 * phrase.k2 as usize + phrase.k3 as usize;
            let sizes: [usize; 5] = [2, 3, 1, 2, 2];
            style < sizes[group]
        } else {
            1 <= phrase.kind && phrase.kind <= 10
        }
    }

    /// The name of a phrase in the given mood.
    pub fn get_phrase_name(&self, mood: &Mood, phrase: &Phrase) -> (r: String)
        requires
            self.wf(),
            phrase_named(*mood, *phrase),
        ensures
            r@ == phrase_name(*mood, *phrase),
    {
        proof {
            assert(table_view(self.phrase_names) == phrase_table());
            assert(table_view(self.hi_phrase_names) == high_phrase_table());
            assert(self.phrase_names@.len() == 3);
            assert(high_phrase_table().len() == 5);
            assert(table_view(self.hi_phrase_names).len() == self.hi_phrase_names@.len());
            assert forall|g: int| 0 <= g < 3 implies #[trigger] self.phrase_names@[g]@.len() == phrase_table()[g].len() by {
                assert(table_view(self.phrase_names)[g] == self.phrase_names@[g]@.map_values(|s: String| s@));
            }
            assert forall|g: int| 0 <= g < 5 implies #[trigger] self.hi_phrase_names@[g]@.len() == high_phrase_table()[g].len() by {
                assert(table_view(self.hi_phrase_names)[g] == self.hi_phrase_names@[g]@.map_values(|s: String| s@));
            }
        }
        if *mood == Mood::High {
            let group: usize = match phrase.kind {
                1 => 0,
                2 => 1,
                3 => 2,
                5 => 3,
                _ => 4,
            };
            let style = phrase.k1 as usize + 2 * phrase.k2 as usize + phrase.k3 as usize;
            proof {
                assert(table_view(self.hi_phrase_names)[group as int][style as int] == self.hi_phrase_names@[group as int]@[style as int]@);
            }
            return self.hi_phrase_names[group][style].clone();
        }
        let row = self.mood_to_int(mood);
        let kind = phrase.kind as usize - 1;
        proof {
            assert(table_view(self.phrase_names)[row as int][kind as int] == self.phrase_names@[row as int]@[kind as int]@);
        }
        self.phrase_names[row][kind].clone()
    }

    fn mood_to_int(&self, mood: &Mood) -> (r: usize)
        ensures
            r == mood_row(*mood),
    {
        match mood {
            Mood::Low => 0,
            Mood::Mid => 1,
            Mood::High => 2,
        }
    }

    /// The phrase category of a phrase name.
    pub fn phrase_name_to_index(phrase_name: &str) -> (r: i32)
        ensures
            r == phrase_index(phrase_name@),
    {
        if same_text(phrase_name, "Intro") || same_text(phrase_name, "Intro 1") || same_text(
            phrase_name,
            "Intro 2",
        ) {
            1
        } else if same_text(phrase_name, "Verse 1") || same_text(phrase_name, "Verse 2") || same_text(
            phrase_name,
            "Verse 3",
        ) || same_text(phrase_name, "Verse 4") || same_text(phrase_name, "Verse 5") || same_text(
            phrase_name,
            "Verse 6",
        ) || same_text(phrase_name, "Up 1") || same_text(phrase_name, "Up 2") || same_text(
            phrase_name,
            "Up 3",
        ) {
            2
        } else if same_text(phrase_name, "Chorus") || same_text(phrase_name, "Chorus 1") || same_text(
            phrase_name,
            "Chorus 2",
        ) {
            3
        } else if same_text(phrase_name, "Bridge") || same_text(phrase_name, "Down") {
            4
        } else if same_text(phrase_name, "Outro") || same_text(phrase_name, "Outro 1") || same_text(
            phrase_name,
            "Outro 2",
        ) {
            5
        } else {
            0
        }
    }
}

} // verus!
