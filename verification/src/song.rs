//! The song record and its sixteen chart slots.

use vstd::prelude::*;

verus! {

/// The four chart variants of a button mode, in slot order.
#[derive(Clone, Copy, Debug, PartialEq, Eq, Structural)]
pub enum Variant {
    /// Slot 0, the normal chart, which every song has.
    Nm,
    /// Slot 1, the hard chart.
    Hd,
    /// Slot 2, the maximum chart.
    Mx,
    /// Slot 3, the special chart.
    Sc,
}

impl Variant {
    /// The slot number of the variant, from 0 to 3.
    pub open spec fn slot(self) -> int {
        match self {
            Variant::Nm => 0,
            Variant::Hd => 1,
            Variant::Mx => 2,
            Variant::Sc => 3,
        }
    }

    /// The two letters by which players name the variant.
    pub open spec fn spec_label(self) -> Seq<char> {
        match self {
            Variant::Nm => seq!['N', 'M'],
            Variant::Hd => seq!['H', 'D'],
            Variant::Mx => seq!['M', 'X'],
            Variant::Sc => seq!['S', 'C'],
        }
    }

    /// The two letters by which players name the variant.
    pub fn label(&self) -> (text: &'static str)
        ensures
            text@ == self.spec_label(),
    {
        proof {
            reveal_strlit("NM");
            reveal_strlit("HD");
            reveal_strlit("MX");
            reveal_strlit("SC");
            assert("NM"@ =~= seq!['N', 'M']);
            assert("HD"@ =~= seq!['H', 'D']);
            assert("MX"@ =~= seq!['M', 'X']);
            assert("SC"@ =~= seq!['S', 'C']);
        }
        match self {
            Variant::Nm => "NM",
            Variant::Hd => "HD",
            Variant::Mx => "MX",
            Variant::Sc => "SC",
        }
    }
}

/// Whether `button` is one of the four button modes: 4, 5, 6 or 8.
pub open spec fn is_mode(button: int) -> bool {
    button == 4 || button == 5 || button == 6 || button == 8
}

/// One song of the catalog. Tempos are held in thousandths of a beat per
/// minute. Slot 0 of each mode is always there; the other slots are `None`
/// where the song has no such chart.
#[derive(Debug)]
pub struct Song {
    pub id: i32,
    pub title: String,
    pub artist: String,
    pub min_bpm: Option<u32>,
    pub max_bpm: u32,
    pub category: String,
    pub dlc: Option<String>,
    pub four_button_0: i32,
    pub four_button_1: Option<i32>,
    pub four_button_2: Option<i32>,
    pub four_button_3: Option<i32>,
    pub five_button_0: i32,
    pub five_button_1: Option<i32>,
    pub five_button_2: Option<i32>,
    pub five_button_3: Option<i32>,
    pub six_button_0: i32,
    pub six_button_1: Option<i32>,
    pub six_button_2: Option<i32>,
    pub six_button_3: Option<i32>,
    pub eight_button_0: i32,
    pub eight_button_1: Option<i32>,
    pub eight_button_2: Option<i32>,
    pub eight_button_3: Option<i32>,
}

/// What a song record holds, field for field, with each text as its
/// sequence of characters.
pub struct SongView {
    pub id: i32,
    pub title: Seq<char>,
    pub artist: Seq<char>,
    pub min_bpm: Option<u32>,
    pub max_bpm: u32,
    pub category: Seq<char>,
    pub dlc: Option<Seq<char>>,
    pub four_button_0: i32,
    pub four_button_1: Option<i32>,
    pub four_button_2: Option<i32>,
    pub four_button_3: Option<i32>,
    pub five_button_0: i32,
    pub five_button_1: Option<i32>,
    pub five_button_2: Option<i32>,
    pub five_button_3: Option<i32>,
    pub six_button_0: i32,
    pub six_button_1: Option<i32>,
    pub six_button_2: Option<i32>,
    pub six_button_3: Option<i32>,
    pub eight_button_0: i32,
    pub eight_button_1: Option<i32>,
    pub eight_button_2: Option<i32>,
    pub eight_button_3: Option<i32>,
}

impl SongView {
    /// The level in slot `slot` of mode `button`: `None` where the chart does
    /// not exist, where `button` is no mode, or where `slot` is not 0 to 3.
    pub open spec fn slot(self, button: int, slot: int) -> Option<i32> {
        if button == 4 {
            if slot == 0 {
                Some(self.four_button_0)
            } else if slot == 1 {
                self.four_button_1
            } else if slot == 2 {
                self.four_button_2
            } else if slot == 3 {
                self.four_button_3
            } else {
                None
            }
        } else if button == 5 {
            if slot == 0 {
                Some(self.five_button_0)
            } else if slot == 1 {
                self.five_button_1
            } else if slot == 2 {
                self.five_button_2
            } else if slot == 3 {
                self.five_button_3
            } else {
                None
            }
        } else if button == 6 {
            if slot == 0 {
                Some(self.six_button_0)
            } else if slot == 1 {
                self.six_button_1
            } else if slot == 2 {
                self.six_button_2
            } else if slot == 3 {
                self.six_button_3
            } else {
                None
            }
        } else if button == 8 {
            if slot == 0 {
                Some(self.eight_button_0)
            } else if slot == 1 {
                self.eight_button_1
            } else if slot == 2 {
                self.eight_button_2
            } else if slot == 3 {
                self.eight_button_3
            } else {
                None
            }
        } else {
            None
        }
    }

    /// Whether the chart in slot `slot` of mode `button` exists and is rated
    /// exactly `level`.
    pub open spec fn slot_is(self, button: int, slot: int, level: int) -> bool {
        match self.slot(button, slot) {
            Some(rated) => rated == level,
            None => false,
        }
    }

    /// Whether any of the four charts of mode `button` is rated exactly
    /// `level`.
    pub open spec fn has_level(self, button: int, level: int) -> bool {
        self.slot_is(button, 0, level) || self.slot_is(button, 1, level) || self.slot_is(
            button,
            2,
            level,
        ) || self.slot_is(button, 3, level)
    }

    /// The variants of mode `button` that are rated exactly `level`, in slot
    /// order.
    pub open spec fn matched_variants(self, button: int, level: int) -> Seq<Variant> {
        let nm = if self.slot_is(button, 0, level) {
            seq![Variant::Nm]
        } else {
            Seq::<Variant>::empty()
        };
        let hd = if self.slot_is(button, 1, level) {
            seq![Variant::Hd]
        } else {
            Seq::<Variant>::empty()
        };
        let mx = if self.slot_is(button, 2, level) {
            seq![Variant::Mx]
        } else {
            Seq::<Variant>::empty()
        };
        let sc = if self.slot_is(button, 3, level) {
            seq![Variant::Sc]
        } else {
            Seq::<Variant>::empty()
        };
        nm + hd + mx + sc
    }

    /// The conventions of the data: a slower tempo, where given, does not
    /// exceed the faster one, and every chart that exists has a positive
    /// level. The catalog does not enforce them.
    pub open spec fn is_consistent(self) -> bool {
        &&& match self.min_bpm {
            Some(slowest) => slowest <= self.max_bpm,
            None => true,
        }
        &&& forall|button: int, slot: int|
            is_mode(button) && 0 <= slot < 4 ==> match #[trigger] self.slot(button, slot) {
                Some(rated) => rated > 0,
                None => true,
            }
    }
}

impl View for Song {
    type V = SongView;

    open spec fn view(&self) -> SongView {
        SongView {
            id: self.id,
            title: self.title@,
            artist: self.artist@,
            min_bpm: self.min_bpm,
            max_bpm: self.max_bpm,
            category: self.category@,
            dlc: match self.dlc {
                Some(pack) => Some(pack@),
                None => None,
            },
            four_button_0: self.four_button_0,
            four_button_1: self.four_button_1,
            four_button_2: self.four_button_2,
            four_button_3: self.four_button_3,
            five_button_0: self.five_button_0,
            five_button_1: self.five_button_1,
            five_button_2: self.five_button_2,
            five_button_3: self.five_button_3,
            six_button_0: self.six_button_0,
            six_button_1: self.six_button_1,
            six_button_2: self.six_button_2,
            six_button_3: self.six_button_3,
            eight_button_0: self.eight_button_0,
            eight_button_1: self.eight_button_1,
            eight_button_2: self.eight_button_2,
            eight_button_3: self.eight_button_3,
        }
    }
}

impl Song {
    /// The level in slot `slot` of mode `button`, where that chart exists.
    pub fn slot(&self, button: i32, slot: usize) -> (rated: Option<i32>)
        ensures
            rated == self@.slot(button as int, slot as int),
    {
        if button == 4 {
            match slot {
                0 => Some(self.four_button_0),
                1 => self.four_button_1,
                2 => self.four_button_2,
                3 => self.four_button_3,
                _ => None,
            }
        } else if button == 5 {
            match slot {
                0 => Some(self.five_button_0),
                1 => self.five_button_1,
                2 => self.five_button_2,
                3 => self.five_button_3,
                _ => None,
            }
        } else if button == 6 {
            match slot {
                0 => Some(self.six_button_0),
                1 => self.six_button_1,
                2 => self.six_button_2,
                3 => self.six_button_3,
                _ => None,
            }
        } else if button == 8 {
            match slot {
                0 => Some(self.eight_button_0),
                1 => self.eight_button_1,
                2 => self.eight_button_2,
                3 => self.eight_button_3,
                _ => None,
            }
        } else {
            None
        }
    }

    /// Whether the chart in slot `slot` of mode `button` exists and is rated
    /// exactly `level`.
    pub fn slot_is(&self, button: i32, slot: usize, level: i32) -> (hit: bool)
        ensures
            hit == self@.slot_is(button as int, slot as int, level as int),
    {
        match self.slot(button, slot) {
            Some(rated) => rated == level,
            None => false,
        }
    }

    /// Whether any chart of mode `button` is rated exactly `level`. No song
    /// has a level under a `button` that is not a mode.
    pub fn has_level(&self, button: i32, level: i32) -> (hit: bool)
        ensures
            hit == self@.has_level(button as int, level as int),
    {
        self.slot_is(button, 0, level) || self.slot_is(button, 1, level) || self.slot_is(
            button,
            2,
            level,
        ) || self.slot_is(button, 3, level)
    }

    /// The variants of mode `button` that are rated exactly `level`, in slot
    /// order: all of them, where more than one chart has that level.
    pub fn matched_variants(&self, button: i32, level: i32) -> (hits: Vec<Variant>)
        ensures
            hits@ == self@.matched_variants(button as int, level as int),
    {
        let mut hits: Vec<Variant> = Vec::new();
        if self.slot_is(button, 0, level) {
            hits.push(Variant::Nm);
        }
        if self.slot_is(button, 1, level) {
            hits.push(Variant::Hd);
        }
        if self.slot_is(button, 2, level) {
            hits.push(Variant::Mx);
        }
        if self.slot_is(button, 3, level) {
            hits.push(Variant::Sc);
        }
        assert(hits@ =~= self@.matched_variants(button as int, level as int));
        hits
    }

    /// Whether the record keeps the conventions of the data.
    pub fn is_consistent(&self) -> (fine: bool)
        ensures
            fine == self@.is_consistent(),
    {
        let tempo_fine = match self.min_bpm {
            Some(slowest) => slowest <= self.max_bpm,
            None => true,
        };
        let mut levels_fine = true;
        let modes: [i32; 4] = [4, 5, 6, 8];
        let mut m: usize = 0;
        while m < 4
            invariant
                m <= 4,
                modes[0] == 4 && modes[1] == 5 && modes[2] == 6 && modes[3] == 8,
                levels_fine == (forall|i: int, slot: int|
                    0 <= i < m && 0 <= slot < 4 ==> match #[trigger] self@.slot(
                        modes[i] as int,
                        slot,
                    ) {
                        Some(rated) => rated > 0,
                        None => true,
                    }),
            decreases 4 - m,
        {
            let mut k: usize = 0;
            let ghost before = levels_fine;
            let mut row_fine = true;
            while k < 4
                invariant
                    k <= 4,
                    m < 4,
                    modes[0] == 4 && modes[1] == 5 && modes[2] == 6 && modes[3] == 8,
                    row_fine == (forall|slot: int|
                        0 <= slot < k ==> match #[trigger] self@.slot(modes[m as int] as int, slot) {
                            Some(rated) => rated > 0,
                            None => true,
                        }),
                decreases 4 - k,
            {
                match self.slot(modes[m], k) {
                    Some(rated) => {
                        if rated <= 0 {
                            row_fine = false;
                        }
                    },
                    None => {},
                }
                k = k + 1;
            }
            levels_fine = levels_fine && row_fine;
            m = m + 1;
        }
        proof {
            if levels_fine {
                assert forall|button: int, slot: int|
                    is_mode(button) && 0 <= slot < 4 implies match #[trigger] self@.slot(
                    button,
                    slot,
                ) {
                    Some(rated) => rated > 0,
                    None => true,
                } by {
                    let i: int = if button == 4 {
                        0
                    } else if button == 5 {
                        1
                    } else if button == 6 {
                        2
                    } else {
                        3
                    };
                    assert(modes[i] as int == button);
                }
            } else {
                let (i, slot): (int, int) = choose|i: int, slot: int|
                    0 <= i < 4 && 0 <= slot < 4 && !(match #[trigger] self@.slot(
                        modes[i] as int,
                        slot,
                    ) {
                        Some(rated) => rated > 0,
                        None => true,
                    });
                assert(is_mode(modes[i] as int));
            }
        }
        tempo_fine && levels_fine
    }
}

impl Clone for Song {
    fn clone(&self) -> (copy: Song)
        ensures
            copy == *self,
    {
        Song {
            id: self.id,
            title: self.title.clone(),
            artist: self.artist.clone(),
            min_bpm: self.min_bpm,
            max_bpm: self.max_bpm,
            category: self.category.clone(),
            dlc: match &self.dlc {
                Some(pack) => Some(pack.clone()),
                None => None,
            },
            four_button_0: self.four_button_0,
            four_button_1: self.four_button_1,
            four_button_2: self.four_button_2,
            four_button_3: self.four_button_3,
            five_button_0: self.five_button_0,
            five_button_1: self.five_button_1,
            five_button_2: self.five_button_2,
            five_button_3: self.five_button_3,
            six_button_0: self.six_button_0,
            six_button_1: self.six_button_1,
            six_button_2: self.six_button_2,
            six_button_3: self.six_button_3,
            eight_button_0: self.eight_button_0,
            eight_button_1: self.eight_button_1,
            eight_button_2: self.eight_button_2,
            eight_button_3: self.eight_button_3,
        }
    }
}

} // verus!
