//! What one cell of the board looks like on the screen: its label and the
//! style classes it carries.

use vstd::prelude::*;
use crate::cell::CellPosition;

verus! {

/// The look of one cell.
pub struct ButtonCell {
    pub label: String,
    pub css_classes: Vec<String>,
    pub position: CellPosition,
}

/// What a cell is told to do with its look.
#[derive(Debug, Clone)]
pub enum ButtonMsg {
    /// Show this label, in the colour of its number if it is one.
    Display(String),
    /// Show nothing, in the plain style.
    Reset,
    /// Take on this style class.
    AddCssClass(String),
    /// Look pressed.
    Activate,
    /// Look pressed no longer.
    Deactivate,
}

/// What a cell reports of the pointer: a wish to reveal or to flag the cell
/// with this index.
#[derive(Debug, Clone, Copy, PartialEq, Eq, Structural)]
pub enum CellOutput {
    Reveal(usize),
    Flag(usize),
}

/// The look of a cell as a mathematical value.
pub struct ButtonView {
    pub label: Seq<char>,
    pub css_classes: Seq<Seq<char>>,
    pub position: CellPosition,
}

/// The style class that colours the label of a number from one to eight.
pub open spec fn number_class(label: Seq<char>) -> Option<Seq<char>> {
    if label == "1"@ {
        Some("number-one"@)
    } else if label == "2"@ {
        Some("number-two"@)
    } else if label == "3"@ {
        Some("number-three"@)
    } else if label == "4"@ {
        Some("number-four"@)
    } else if label == "5"@ {
        Some("number-five"@)
    } else if label == "6"@ {
        Some("number-six"@)
    } else if label == "7"@ {
        Some("number-seven"@)
    } else if label == "8"@ {
        Some("number-eight"@)
    } else {
        None
    }
}

/// What tells the other style classes from the one of a pressed cell.
pub open spec fn not_active() -> spec_fn(Seq<char>) -> bool {
    |class: Seq<char>| class != "active"@
}

/// What reads a style class as its characters.
pub open spec fn characters() -> spec_fn(String) -> Seq<char> {
    |class: String| class@
}

impl ButtonView {
    /// The look after the cell was told `msg`.
    pub open spec fn updated(self, msg: ButtonMsg) -> ButtonView {
        match msg {
            ButtonMsg::Display(label) => ButtonView {
                label: label@,
                css_classes: match number_class(label@) {
                    Some(class) => self.css_classes.push(class),
                    None => self.css_classes,
                },
                position: self.position,
            },
            ButtonMsg::Reset => ButtonView {
                label: Seq::empty(),
                css_classes: seq!["square-button"@],
                position: self.position,
            },
            ButtonMsg::AddCssClass(class) => ButtonView {
                label: self.label,
                css_classes: self.css_classes.push(class@),
                position: self.position,
            },
            ButtonMsg::Activate => ButtonView {
                label: self.label,
                css_classes: self.css_classes.push("active"@),
                position: self.position,
            },
            ButtonMsg::Deactivate => ButtonView {
                label: self.label,
                css_classes: self.css_classes.filter(not_active()),
                position: self.position,
            },
        }
    }
}

impl View for ButtonCell {
    type V = ButtonView;

    open spec fn view(&self) -> ButtonView {
        ButtonView {
            label: self.label@,
            css_classes: self.css_classes@.map_values(characters()),
            position: self.position,
        }
    }
}

impl ButtonCell {
    /// The look of the cell at `pos` before anything is shown: no label, the
    /// plain style.
    pub fn new(pos: CellPosition) -> (cell: Self)
        ensures
            cell@ == (ButtonView {
                label: Seq::empty(),
                css_classes: seq!["square-button"@],
                position: pos,
            }),
    {
        let mut css_classes: Vec<String> = Vec::new();
        css_classes.push("square-button".to_owned());
        let cell = Self { label: String::new(), css_classes, position: pos };
        proof {
            assert(cell@.css_classes =~= seq!["square-button"@]);
        }
        cell
    }

    /// The style class that colours `label`, if it is a number from one to
    /// eight.
    fn class_of(label: &String) -> (class: Option<String>)
        ensures
            match class {
                Some(class) => number_class(label@) == Some(class@),
                None => number_class(label@) is None,
            },
    {
        if *label == "1".to_owned() {
            Some("number-one".to_owned())
        } else if *label == "2".to_owned() {
            Some("number-two".to_owned())
        } else if *label == "3".to_owned() {
            Some("number-three".to_owned())
        } else if *label == "4".to_owned() {
            Some("number-four".to_owned())
        } else if *label == "5".to_owned() {
            Some("number-five".to_owned())
        } else if *label == "6".to_owned() {
            Some("number-six".to_owned())
        } else if *label == "7".to_owned() {
            Some("number-seven".to_owned())
        } else if *label == "8".to_owned() {
            Some("number-eight".to_owned())
        } else {
            None
        }
    }

    /// Adds a style class.
    fn add_class(&mut self, class: String)
        ensures
            final(self)@ == (ButtonView {
                css_classes: old(self)@.css_classes.push(class@),
                ..old(self)@
            }),
    {
        self.css_classes.push(class);
        proof {
            assert(self@.css_classes =~= old(self)@.css_classes.push(class@));
        }
    }

    /// Drops the style class of a pressed cell, wherever it stands.
    fn drop_active(&mut self)
        ensures
            final(self)@ == (ButtonView {
                css_classes: old(self)@.css_classes.filter(not_active()),
                ..old(self)@
            }),
    {
        let ghost classes = self@.css_classes;
        let active = "active".to_owned();
        let mut kept: Vec<String> = Vec::new();
        let mut i: usize = 0;
        proof {
            assert(classes.take(0) =~= Seq::<Seq<char>>::empty());
            assert(classes.take(0).filter(not_active()) =~= Seq::<Seq<char>>::empty()) by {
                reveal(Seq::filter);
            }
            assert(kept@.map_values(characters()) =~= Seq::<Seq<char>>::empty());
        }
        while i < self.css_classes.len()
            invariant
                i <= self.css_classes@.len(),
                *self == *old(self),
                classes == self@.css_classes,
                active@ == "active"@,
                kept@.map_values(characters()) == classes.take(i as int).filter(not_active()),
            decreases self.css_classes@.len() - i,
        {
            let ghost so_far = kept@;
            proof {
                assert(classes.take(i as int + 1) =~= classes.take(i as int).push(classes[i as int]));
                classes.take(i as int).lemma_filter_push(classes[i as int], not_active());
            }
            if self.css_classes[i] != active {
                kept.push(self.css_classes[i].clone());
                proof {
                    assert(kept@.map_values(characters()) =~= so_far.map_values(characters()).push(
                        classes[i as int],
                    ));
                }
            }
            i += 1;
        }
        proof {
            assert(classes.take(self.css_classes@.len() as int) =~= classes);
        }
        self.css_classes = kept;
    }

    /// Does what the cell is told: shows a label, returns to the plain look,
    /// takes on a style class, or looks pressed or not.
    pub fn update(&mut self, msg: ButtonMsg)
        ensures
            final(self)@ == old(self)@.updated(msg),
    {
        match msg {
            ButtonMsg::Display(label) => {
                match Self::class_of(&label) {
                    Some(class) => {
                        self.add_class(class);
                    },
                    None => {},
                }
                self.label = label;
            },
            ButtonMsg::Reset => {
                let fresh = Self::new(self.position);
                self.label = fresh.label;
                self.css_classes = fresh.css_classes;
            },
            ButtonMsg::AddCssClass(class) => {
                self.add_class(class);
            },
            ButtonMsg::Activate => {
                self.add_class("active".to_owned());
            },
            ButtonMsg::Deactivate => {
                self.drop_active();
            },
        }
    }
}

} // verus!
