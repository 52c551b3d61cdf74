//! What stands around the pages: the toolbar, the status bar, and the question about unsaved
//! changes.
//!
//! Each control says what it produces. One that produces nothing is greyed out, so a lit button
//! and a key press that does nothing cannot disagree.

use vstd::prelude::*;
use vstd::string::*;

use crate::button::Glyph;
use crate::command::{Command, CommandView};
use crate::confirm::Answer;
use crate::edits::Edits;
use crate::label;
use crate::picker::Purpose;
use crate::text;
use crate::view::{ScrollMode, ViewCommand, ZoomTarget};

verus! {

/// What a control produces.
#[derive(Debug, PartialEq, Eq)]
pub enum Press {
    /// The command that an outside process would send.
    Command(Command),
    /// A file dialog. That is no command: it asks a person.
    Dialog(Purpose),
}

/// What a control produces, by its texts and numbers.
#[verifier::ext_equal]
pub enum PressView {
    Command(CommandView),
    Dialog(Purpose),
}

impl View for Press {
    type V = PressView;

    open spec fn view(&self) -> PressView {
        match self {
            Press::Command(command) => PressView::Command(command@),
            Press::Dialog(purpose) => PressView::Dialog(*purpose),
        }
    }
}

/// What stands in a toolbar.
#[derive(Debug, PartialEq, Eq)]
pub enum Item {
    Separator,
    /// A control that can be greyed out.
    Button { text: &'static str, hover: &'static str, produces: Option<Press> },
    /// A control that is lit while something is on.
    Toggle { text: &'static str, hover: &'static str, on: bool, produces: Press },
}

/// What stands in a toolbar, by its texts and numbers.
#[verifier::ext_equal]
pub enum ItemView {
    Separator,
    Button { text: Seq<char>, hover: Seq<char>, produces: Option<PressView> },
    Toggle { text: Seq<char>, hover: Seq<char>, on: bool, produces: PressView },
}

impl View for Item {
    type V = ItemView;

    open spec fn view(&self) -> ItemView {
        match self {
            Item::Separator => ItemView::Separator,
            Item::Button { text, hover, produces } => ItemView::Button {
                text: text@,
                hover: hover@,
                produces: match produces {
                    Some(press) => Some(press@),
                    None => None,
                },
            },
            Item::Toggle { text, hover, on, produces } => ItemView::Toggle {
                text: text@,
                hover: hover@,
                on: *on,
                produces: produces@,
            },
        }
    }
}

/// What the toolbar depends on.
#[derive(Debug)]
pub struct Toolbar {
    /// Which page edits are possible.
    pub edits: Edits,
    pub zoom_target: ZoomTarget,
    pub scroll_mode: ScrollMode,
    /// Whether the page grid is showing.
    pub thumbnails: bool,
    /// Whether a file dialog is open, so that a second click cannot stack one.
    pub picker_open: bool,
    /// Whether there is a document to add pages to.
    pub document_open: bool,
}

/// A button that produces a command, where there is one.
pub open spec fn command_button(
    text: Seq<char>,
    hover: Seq<char>,
    command: Option<CommandView>,
) -> ItemView {
    ItemView::Button {
        text,
        hover,
        produces: match command {
            Some(command) => Some(PressView::Command(command)),
            None => None,
        },
    }
}

/// A button that opens a file dialog, where that is possible.
pub open spec fn dialog_button(
    text: Seq<char>,
    hover: Seq<char>,
    purpose: Purpose,
    possible: bool,
) -> ItemView {
    ItemView::Button {
        text,
        hover,
        produces: if possible {
            Some(PressView::Dialog(purpose))
        } else {
            None
        },
    }
}

/// A command, by its texts and numbers, where there is one.
pub open spec fn command_in(command: Option<Command>) -> Option<CommandView> {
    match command {
        Some(command) => Some(command@),
        None => None,
    }
}

/// A command of the view.
pub open spec fn viewing(command: ViewCommand) -> Option<CommandView> {
    Some(CommandView::View(command))
}

/// What the toolbar offers on the left: files, the page grid, and the ends of the document.
pub open spec fn left_items(state: Toolbar) -> Seq<ItemView> {
    seq![
        dialog_button(
            "Open…"@,
            "Open a PDF (Ctrl+O), or drag one onto the window"@,
            Purpose::Open,
            !state.picker_open,
        ),
        dialog_button(
            "Add pages…"@,
            "Add every page of another PDF to the end of this one, or drag one onto the page grid"@,
            Purpose::Insert,
            state.document_open && !state.picker_open,
        ),
        ItemView::Separator,
        ItemView::Toggle {
            text: "Pages"@,
            hover: "Show the page grid, to jump to a page or drag pages around (Ctrl+T)"@,
            on: state.thumbnails,
            produces: PressView::Command(state.edits.toggle_thumbnails@),
        },
        ItemView::Separator,
        command_button(
            Glyph::FirstPage.spec_text(),
            "First page (Home)"@,
            viewing(ViewCommand::FirstPage),
        ),
        command_button(
            Glyph::LastPage.spec_text(),
            "Last page (End)"@,
            viewing(ViewCommand::LastPage),
        ),
        ItemView::Separator,
    ]
}

/// What the toolbar offers in the middle: page edits.
pub open spec fn edit_items(edits: Edits) -> Seq<ItemView> {
    seq![
        command_button(
            "Up"@,
            "Move this page earlier (Ctrl+Up)"@,
            command_in(edits.move_earlier),
        ),
        command_button(
            "Down"@,
            "Move this page later (Ctrl+Down)"@,
            command_in(edits.move_later),
        ),
        command_button("Delete"@, "Delete this page"@, command_in(edits.delete)),
        command_button("Undo"@, "Undo the last page edit (Ctrl+Z)"@, command_in(edits.undo)),
        command_button(
            "Save"@,
            "Write the changes over the file (Ctrl+S)"@,
            command_in(edits.save),
        ),
        ItemView::Separator,
    ]
}

/// The other way of scrolling.
pub open spec fn other_mode(mode: ScrollMode) -> ScrollMode {
    match mode {
        ScrollMode::Free => ScrollMode::Paged,
        ScrollMode::Paged => ScrollMode::Free,
    }
}

/// What the toolbar offers on the right: zooming and scrolling.
pub open spec fn right_items(zoom_target: ZoomTarget, scroll_mode: ScrollMode) -> Seq<ItemView> {
    seq![
        command_button(
            Glyph::ZoomOut.spec_text(),
            "Zoom out (Ctrl+-)"@,
            viewing(ViewCommand::StepZoom { rungs: -1i32 }),
        ),
        command_button(
            Glyph::ZoomIn.spec_text(),
            "Zoom in (Ctrl++)"@,
            viewing(ViewCommand::StepZoom { rungs: 1 }),
        ),
        ItemView::Toggle {
            text: "Width"@,
            hover: "Fit width (Ctrl+0)"@,
            on: zoom_target == ZoomTarget::FitWidth,
            produces: PressView::Command(
                CommandView::View(ViewCommand::SetZoom { target: ZoomTarget::FitWidth }),
            ),
        },
        ItemView::Toggle {
            text: "Page"@,
            hover: "Fit page (Ctrl+2)"@,
            on: zoom_target == ZoomTarget::FitPage,
            produces: PressView::Command(
                CommandView::View(ViewCommand::SetZoom { target: ZoomTarget::FitPage }),
            ),
        },
        ItemView::Separator,
        ItemView::Toggle {
            text: "Paged"@,
            hover: "Page-by-page instead of continuous scrolling"@,
            on: scroll_mode == ScrollMode::Paged,
            produces: PressView::Command(
                CommandView::View(ViewCommand::SetScrollMode { mode: other_mode(scroll_mode) }),
            ),
        },
    ]
}

/// What stands in a toolbar, by its texts and numbers.
pub open spec fn items_in(items: Seq<Item>) -> Seq<ItemView> {
    items.map_values(|item: Item| item@)
}

/// Adds a button that produces a command, where there is one.
fn push_command(
    items: &mut Vec<Item>,
    text: &'static str,
    hover: &'static str,
    command: Option<Command>,
)
    ensures
        items_in(final(items)@) == items_in(old(items)@).push(
            command_button(text@, hover@, command_in(command)),
        ),
{
    let produces = match command {
        Some(command) => Some(Press::Command(command)),
        None => None,
    };
    push(items, Item::Button { text, hover, produces });
}

/// Adds an item.
fn push(items: &mut Vec<Item>, item: Item)
    ensures
        items_in(final(items)@) == items_in(old(items)@).push(item@),
{
    let ghost added = item@;
    items.push(item);
    proof {
        assert(items_in(items@) =~= items_in(old(items)@).push(added));
    }
}

/// What the toolbar offers right now.
pub fn toolbar(state: Toolbar) -> (items: Vec<Item>)
    ensures
        items_in(items@) == left_items(state) + edit_items(state.edits) + right_items(
            state.zoom_target,
            state.scroll_mode,
        ),
{
    let ghost asked = state;
    let mut items: Vec<Item> = Vec::new();
    proof {
        assert(items_in(items@) =~= Seq::empty());
    }
    push(
        &mut items,
        Item::Button {
            text: "Open…",
            hover: "Open a PDF (Ctrl+O), or drag one onto the window",
            produces: if state.picker_open {
                None
            } else {
                Some(Press::Dialog(Purpose::Open))
            },
        },
    );
    push(
        &mut items,
        Item::Button {
            text: "Add pages…",
            hover: "Add every page of another PDF to the end of this one, or drag one onto the page grid",
            produces: if state.document_open && !state.picker_open {
                Some(Press::Dialog(Purpose::Insert))
            } else {
                None
            },
        },
    );
    push(&mut items, Item::Separator);
    push(
        &mut items,
        Item::Toggle {
            text: "Pages",
            hover: "Show the page grid, to jump to a page or drag pages around (Ctrl+T)",
            on: state.thumbnails,
            produces: Press::Command(state.edits.toggle_thumbnails),
        },
    );
    push(&mut items, Item::Separator);
    push_command(
        &mut items,
        Glyph::FirstPage.text(),
        "First page (Home)",
        Some(Command::View(ViewCommand::FirstPage)),
    );
    push_command(
        &mut items,
        Glyph::LastPage.text(),
        "Last page (End)",
        Some(Command::View(ViewCommand::LastPage)),
    );
    push(&mut items, Item::Separator);
    proof {
        assert(items_in(items@) =~= left_items(asked));
    }
    push_command(
        &mut items,
        "Up",
        "Move this page earlier (Ctrl+Up)",
        state.edits.move_earlier,
    );
    push_command(&mut items, "Down", "Move this page later (Ctrl+Down)", state.edits.move_later);
    push_command(&mut items, "Delete", "Delete this page", state.edits.delete);
    push_command(&mut items, "Undo", "Undo the last page edit (Ctrl+Z)", state.edits.undo);
    push_command(
        &mut items,
        "Save",
        "Write the changes over the file (Ctrl+S)",
        state.edits.save,
    );
    push(&mut items, Item::Separator);
    proof {
        assert(items_in(items@) =~= left_items(asked) + edit_items(asked.edits));
    }
    push_command(
        &mut items,
        Glyph::ZoomOut.text(),
        "Zoom out (Ctrl+-)",
        Some(Command::View(ViewCommand::StepZoom { rungs: -1 })),
    );
    push_command(
        &mut items,
        Glyph::ZoomIn.text(),
        "Zoom in (Ctrl++)",
        Some(Command::View(ViewCommand::StepZoom { rungs: 1 })),
    );
    push(
        &mut items,
        Item::Toggle {
            text: "Width",
            hover: "Fit width (Ctrl+0)",
            on: state.zoom_target == ZoomTarget::FitWidth,
            produces: Press::Command(
                Command::View(ViewCommand::SetZoom { target: ZoomTarget::FitWidth }),
            ),
        },
    );
    push(
        &mut items,
        Item::Toggle {
            text: "Page",
            hover: "Fit page (Ctrl+2)",
            on: state.zoom_target == ZoomTarget::FitPage,
            produces: Press::Command(
                Command::View(ViewCommand::SetZoom { target: ZoomTarget::FitPage }),
            ),
        },
    );
    push(&mut items, Item::Separator);
    push(
        &mut items,
        Item::Toggle {
            text: "Paged",
            hover: "Page-by-page instead of continuous scrolling",
            on: state.scroll_mode == ScrollMode::Paged,
            produces: Press::Command(
                Command::View(
                    ViewCommand::SetScrollMode {
                        mode: match state.scroll_mode {
                            ScrollMode::Free => ScrollMode::Paged,
                            ScrollMode::Paged => ScrollMode::Free,
                        },
                    },
                ),
            ),
        },
    );
    proof {
        assert(items_in(items@) =~= left_items(asked) + edit_items(asked.edits) + right_items(
            asked.zoom_target,
            asked.scroll_mode,
        ));
    }
    items
}

/// How something in the status bar is to be read.
#[derive(Debug, Clone, Copy, PartialEq, Eq, Structural)]
pub enum Tone {
    Plain,
    /// About what is picked out.
    Selection,
    Warning,
    Error,
}

/// Something in the status bar.
#[derive(Debug, PartialEq, Eq)]
pub struct Label {
    pub text: String,
    pub tone: Tone,
}

/// Something in the status bar, by its text.
#[verifier::ext_equal]
pub struct LabelView {
    pub text: Seq<char>,
    pub tone: Tone,
}

impl View for Label {
    type V = LabelView;

    open spec fn view(&self) -> LabelView {
        LabelView { text: self.text@, tone: self.tone }
    }
}

/// What the status bar says of an open document. What is measured comes in words.
#[derive(Debug)]
pub struct StatusDocument {
    /// Counting from 1.
    pub current_page: usize,
    pub page_count: usize,
    /// The zoom factor and what it follows.
    pub zoom: String,
    pub scroll_mode: String,
    /// How many pages are kept drawn, and how much that takes.
    pub cache: String,
    pub workers: usize,
    pub renders_in_flight: usize,
    /// How long frames take.
    pub timing: String,
    /// Pages given up on.
    pub abandoned: usize,
    /// Pages picked out in the grid.
    pub selected: usize,
}

/// A label that is only there for a count above zero.
pub open spec fn counted(count: usize, what: Seq<char>, tone: Tone) -> Seq<LabelView> {
    if count > 0 {
        seq![LabelView { text: text::decimal_text(count as nat) + what, tone }]
    } else {
        Seq::empty()
    }
}

/// What the status bar says of an open document.
pub open spec fn document_labels(open: StatusDocument) -> Seq<LabelView> {
    seq![
        LabelView {
            text: "page "@ + text::decimal_text(open.current_page as nat) + " of "@
                + text::decimal_text(open.page_count as nat),
            tone: Tone::Plain,
        },
        LabelView { text: open.zoom@, tone: Tone::Plain },
        LabelView { text: open.scroll_mode@, tone: Tone::Plain },
        LabelView { text: open.cache@, tone: Tone::Plain },
        LabelView {
            text: text::decimal_text(open.workers as nat) + " workers, "@ + text::decimal_text(
                open.renders_in_flight as nat,
            ) + " in flight"@,
            tone: Tone::Plain,
        },
        LabelView { text: open.timing@, tone: Tone::Plain },
    ] + counted(open.selected, " selected"@, Tone::Selection) + counted(
        open.abandoned,
        " failed"@,
        Tone::Error,
    )
}

/// What the status bar says of saving.
pub open spec fn saving_labels(saving_to: Option<Seq<char>>, unsaved: bool) -> Seq<LabelView> {
    match saving_to {
        Some(path) => seq![
            LabelView { text: "saving to "@ + label::label_of(path) + "…"@, tone: Tone::Plain },
        ],
        None => if unsaved {
            seq![LabelView { text: "unsaved changes"@, tone: Tone::Warning }]
        } else {
            Seq::empty()
        },
    }
}

/// What the status bar says: of the document, of saving, and last of what went wrong, which is
/// said without a document too.
pub open spec fn status_labels(
    document: Option<StatusDocument>,
    saving_to: Option<Seq<char>>,
    unsaved: bool,
    last_error: Option<Seq<char>>,
) -> Seq<LabelView> {
    (match document {
        Some(open) => document_labels(open),
        None => seq![
            LabelView {
                text: "no document — Ctrl+O to open one, or drag one in"@,
                tone: Tone::Plain,
            },
        ],
    }) + saving_labels(saving_to, unsaved) + (match last_error {
        Some(message) => seq![LabelView { text: message, tone: Tone::Error }],
        None => Seq::empty(),
    })
}

/// The labels, by their texts.
pub open spec fn labels_in(labels: Seq<Label>) -> Seq<LabelView> {
    labels.map_values(|label: Label| label@)
}

/// Adds a label.
fn say(labels: &mut Vec<Label>, text: String, tone: Tone)
    ensures
        labels_in(final(labels)@) == labels_in(old(labels)@).push(LabelView { text: text@, tone }),
{
    let ghost added = LabelView { text: text@, tone };
    labels.push(Label { text, tone });
    proof {
        assert(labels_in(labels@) =~= labels_in(old(labels)@).push(added));
    }
}

/// Adds a label for a count above zero.
fn say_count(labels: &mut Vec<Label>, count: usize, what: &str, tone: Tone)
    ensures
        labels_in(final(labels)@) == labels_in(old(labels)@) + counted(count, what@, tone),
{
    if count > 0 {
        say(labels, text::joined(text::decimal(count).as_str(), what), tone);
        proof {
            assert(labels_in(labels@) =~= labels_in(old(labels)@) + counted(count, what@, tone));
        }
    } else {
        proof {
            assert(labels_in(labels@) =~= labels_in(old(labels)@) + counted(count, what@, tone));
        }
    }
}

/// What the status bar says right now.
pub fn status(
    document: Option<StatusDocument>,
    saving_to: Option<&str>,
    unsaved: bool,
    last_error: Option<&str>,
) -> (labels: Vec<Label>)
    ensures
        labels_in(labels@) == status_labels(
            document,
            match saving_to {
                Some(path) => Some(path@),
                None => None,
            },
            unsaved,
            match last_error {
                Some(message) => Some(message@),
                None => None,
            },
        ),
{
    let ghost shown = document;
    let mut labels: Vec<Label> = Vec::new();
    proof {
        assert(labels_in(labels@) =~= Seq::empty());
    }
    match document {
        Some(open) => {
            let mut page = String::from_str("page ");
            page.append(text::decimal(open.current_page).as_str());
            page.append(" of ");
            page.append(text::decimal(open.page_count).as_str());
            say(&mut labels, page, Tone::Plain);
            say(&mut labels, open.zoom, Tone::Plain);
            say(&mut labels, open.scroll_mode, Tone::Plain);
            say(&mut labels, open.cache, Tone::Plain);
            let mut work = text::decimal(open.workers);
            work.append(" workers, ");
            work.append(text::decimal(open.renders_in_flight).as_str());
            work.append(" in flight");
            say(&mut labels, work, Tone::Plain);
            say(&mut labels, open.timing, Tone::Plain);
            say_count(&mut labels, open.selected, " selected", Tone::Selection);
            say_count(&mut labels, open.abandoned, " failed", Tone::Error);
            proof {
                assert(labels_in(labels@) =~= document_labels(shown->0));
            }
        },
        None => {
            say(
                &mut labels,
                String::from_str("no document — Ctrl+O to open one, or drag one in"),
                Tone::Plain,
            );
        },
    }
    let ghost first = labels_in(labels@);
    match saving_to {
        Some(path) => {
            let mut saving = String::from_str("saving to ");
            saving.append(label::file_label(path).as_str());
            saving.append("…");
            say(&mut labels, saving, Tone::Plain);
        },
        None => {
            if unsaved {
                say(&mut labels, String::from_str("unsaved changes"), Tone::Warning);
            }
        },
    }
    proof {
        let destination = match saving_to {
            Some(path) => Some(path@),
            None => None,
        };
        assert(labels_in(labels@) =~= first + saving_labels(destination, unsaved));
    }
    let ghost second = labels_in(labels@);
    if let Some(message) = last_error {
        say(&mut labels, String::from_str(message), Tone::Error);
    }
    proof {
        let said = match last_error {
            Some(message) => seq![LabelView { text: message@, tone: Tone::Error }],
            None => Seq::empty(),
        };
        assert(labels_in(labels@) =~= second + said);
        assert(first =~= (match shown {
            Some(open) => document_labels(open),
            None => seq![
                LabelView {
                    text: "no document — Ctrl+O to open one, or drag one in"@,
                    tone: Tone::Plain,
                },
            ],
        }));
    }
    labels
}

/// What the question about unsaved changes says.
pub fn question(what: &str) -> (sentence: String)
    ensures
        sentence@ == "The pages have been reordered and not written to the file. Continuing to "@
            + what@ + " will lose those changes."@,
{
    let mut sentence = String::from_str(
        "The pages have been reordered and not written to the file. Continuing to ",
    );
    sentence.append(what);
    sentence.append(" will lose those changes.");
    sentence
}

/// A way to answer the question.
#[derive(Debug, Clone, Copy, PartialEq, Eq)]
pub struct Choice {
    pub text: &'static str,
    pub hover: &'static str,
    pub answer: Answer,
}

/// The ways to answer the question. Saving comes first, because it loses nothing.
pub fn choices() -> (choices: Vec<Choice>)
    ensures
        choices@.len() == 3,
        choices@[0].text@ == "Save, then continue"@,
        choices@[0].hover@ == "Write the changes over the file, then go ahead"@,
        choices@[0].answer == Answer::Save,
        choices@[1].text@ == "Discard changes"@,
        choices@[1].hover@ == "Go ahead and lose the reordering"@,
        choices@[1].answer == Answer::Discard,
        choices@[2].text@ == "Cancel"@,
        choices@[2].hover@ == "Never mind; stay here"@,
        choices@[2].answer == Answer::Cancel,
{
    let mut choices: Vec<Choice> = Vec::new();
    choices.push(
        Choice {
            text: "Save, then continue",
            hover: "Write the changes over the file, then go ahead",
            answer: Answer::Save,
        },
    );
    choices.push(
        Choice {
            text: "Discard changes",
            hover: "Go ahead and lose the reordering",
            answer: Answer::Discard,
        },
    );
    choices.push(
        Choice { text: "Cancel", hover: "Never mind; stay here", answer: Answer::Cancel },
    );
    choices
}

/// The answer that was given, if any. To dismiss the question is to cancel: a dismissal must
/// never be the destructive one.
pub fn answer_given(clicked: Option<Answer>, dismissed: bool) -> (answer: Option<Answer>)
    ensures
        answer == (match clicked {
            Some(answer) => Some(answer),
            None => if dismissed {
                Some(Answer::Cancel)
            } else {
                None
            },
        }),
{
    match clicked {
        Some(answer) => Some(answer),
        None => if dismissed {
            Some(Answer::Cancel)
        } else {
            None
        },
    }
}

} // verus!
