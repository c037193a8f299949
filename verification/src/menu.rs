//! The fixed button menus, as rows of labelled tokens.  The transport layer
//! renders these rows as an inline keyboard.

use vstd::prelude::*;

verus! {

/// One pressable button: a label shown to the user, and the opaque token the
/// chat transport sends back when it is pressed.
pub struct Button {
    pub label: String,
    pub token: String,
}

impl Button {
    /// The button shows `label` and answers with `token`.
    pub open spec fn is(self, label: Seq<char>, token: Seq<char>) -> bool {
        self.label@ == label && self.token@ == token
    }
}

fn button(label: &str, token: &str) -> (b: Button)
    ensures
        b.is(label@, token@),
{
    Button { label: label.to_owned(), token: token.to_owned() }
}

/// The main menu: profile and quests above, log and notes below.
pub fn main_menu() -> (m: Vec<Vec<Button>>)
    ensures
        m@.len() == 2,
        m@[0]@.len() == 2 && m@[1]@.len() == 2,
        m@[0]@[0].is("Profile"@, "profile"@),
        m@[0]@[1].is("Quests"@, "quests"@),
        m@[1]@[0].is("Log"@, "log"@),
        m@[1]@[1].is("Notes"@, "notes"@),
{
    let mut r1: Vec<Button> = Vec::new();
    r1.push(button("Profile", "profile"));
    r1.push(button("Quests", "quests"));
    let mut r2: Vec<Button> = Vec::new();
    r2.push(button("Log", "log"));
    r2.push(button("Notes", "notes"));
    let mut m: Vec<Vec<Button>> = Vec::new();
    m.push(r1);
    m.push(r2);
    m
}

/// The quest menu: the five fixed quests, then a way back.
pub fn quest_menu() -> (m: Vec<Vec<Button>>)
    ensures
        m@.len() == 4,
        m@[0]@.len() == 2 && m@[1]@.len() == 2 && m@[2]@.len() == 1 && m@[3]@.len() == 1,
        m@[0]@[0].is("Apply"@, "q_apply"@),
        m@[0]@[1].is("Study"@, "q_study"@),
        m@[1]@[0].is("Resume"@, "q_resume"@),
        m@[1]@[1].is("Recruiter"@, "q_recruiter"@),
        m@[2]@[0].is("Project"@, "q_project"@),
        m@[3]@[0].is("Back"@, "back"@),
{
    let mut r1: Vec<Button> = Vec::new();
    r1.push(button("Apply", "q_apply"));
    r1.push(button("Study", "q_study"));
    let mut r2: Vec<Button> = Vec::new();
    r2.push(button("Resume", "q_resume"));
    r2.push(button("Recruiter", "q_recruiter"));
    let mut r3: Vec<Button> = Vec::new();
    r3.push(button("Project", "q_project"));
    let mut r4: Vec<Button> = Vec::new();
    r4.push(button("Back", "back"));
    let mut m: Vec<Vec<Button>> = Vec::new();
    m.push(r1);
    m.push(r2);
    m.push(r3);
    m.push(r4);
    m
}

/// The notes menu: add a note, or go back.
pub fn notes_menu() -> (m: Vec<Vec<Button>>)
    ensures
        m@.len() == 2,
        m@[0]@.len() == 1 && m@[1]@.len() == 1,
        m@[0]@[0].is("Add note"@, "add_note"@),
        m@[1]@[0].is("Back"@, "back"@),
{
    let mut r1: Vec<Button> = Vec::new();
    r1.push(button("Add note", "add_note"));
    let mut r2: Vec<Button> = Vec::new();
    r2.push(button("Back", "back"));
    let mut m: Vec<Vec<Button>> = Vec::new();
    m.push(r1);
    m.push(r2);
    m
}

/// The two reminder answers.
pub fn reminder_menu() -> (m: Vec<Vec<Button>>)
    ensures
        m@.len() == 1,
        m@[0]@.len() == 2,
        m@[0]@[0].is("Doing"@, "doing"@),
        m@[0]@[1].is("Nothing"@, "nothing"@),
{
    let mut r1: Vec<Button> = Vec::new();
    r1.push(button("Doing", "doing"));
    r1.push(button("Nothing", "nothing"));
    let mut m: Vec<Vec<Button>> = Vec::new();
    m.push(r1);
    m
}

/// The single acknowledgement of the stronger follow-up prompt.
pub fn force_menu() -> (m: Vec<Vec<Button>>)
    ensures
        m@.len() == 1,
        m@[0]@.len() == 1,
        m@[0]@[0].is("Done"@, "forced_done"@),
{
    let mut r1: Vec<Button> = Vec::new();
    r1.push(button("Done", "forced_done"));
    let mut m: Vec<Vec<Button>> = Vec::new();
    m.push(r1);
    m
}

} // verus!
