//! The rows of the popup.

use vstd::prelude::*;

use crate::applet::{copy_text, text_view, AppInfo, AppView, Message, MessageView};
use crate::camera::app_views;

verus! {

/// A section of the popup.
#[derive(Debug, Clone, Copy, PartialEq, Eq, Structural)]
pub enum Section {
    Camera,
    Microphone,
    ScreenShare,
}

/// A row of the popup.
#[derive(Debug)]
pub enum Row {
    /// A line between two sections.
    Divider,
    /// The title of a section.
    Heading(String),
    /// A program, its label on a second line, and what its kill button sends.
    /// Without a message the button is disabled.
    App { name: String, detail: Option<String>, kill: Option<Message> },
}

/// What a [`Row`] says.
pub enum RowView {
    Divider,
    Heading(Seq<char>),
    App { name: Seq<char>, detail: Option<Seq<char>>, kill: Option<MessageView> },
}

impl View for Row {
    type V = RowView;

    open spec fn view(&self) -> RowView {
        match *self {
            Row::Divider => RowView::Divider,
            Row::Heading(title) => RowView::Heading(title@),
            Row::App { name, detail, kill } => RowView::App {
                name: name@,
                detail: text_view(detail),
                kill: match kill {
                    Some(message) => Some(message@),
                    None => None,
                },
            },
        }
    }
}

/// What each row of a list says.
pub open spec fn row_views(rows: Seq<Row>) -> Seq<RowView> {
    rows.map_values(|row: Row| row@)
}

impl Section {
    /// The section's title.
    pub open spec fn title(self) -> Seq<char> {
        match self {
            Section::Camera => "Camera"@,
            Section::Microphone => "Microphone"@,
            Section::ScreenShare => "Screen Share"@,
        }
    }

    /// What a kill button of the section sends for the program of this id. An
    /// id of zero is not one that can be killed.
    pub open spec fn kill_of(self, id: u32) -> Option<MessageView> {
        if id == 0 {
            None
        } else {
            match self {
                Section::Camera => Some(MessageView::KillProcess(id)),
                Section::Microphone => Some(MessageView::DisconnectNode(id)),
                Section::ScreenShare => Some(MessageView::DisconnectNode(id)),
            }
        }
    }

    /// The section's title.
    pub fn label(self) -> (r: &'static str)
        ensures
            r@ == self.title(),
    {
        match self {
            Section::Camera => "Camera",
            Section::Microphone => "Microphone",
            Section::ScreenShare => "Screen Share",
        }
    }

    /// What a kill button of the section sends for the program of this id.
    pub fn kill(self, id: u32) -> (r: Option<Message>)
        ensures
            match r {
                Some(message) => self.kill_of(id) == Some(message@),
                None => self.kill_of(id) is None,
            },
    {
        if id > 0 {
            match self {
                Section::Camera => Some(Message::KillProcess(id)),
                Section::Microphone => Some(Message::DisconnectNode(id)),
                Section::ScreenShare => Some(Message::DisconnectNode(id)),
            }
        } else {
            None
        }
    }
}

/// The row of a program.
pub open spec fn app_row(section: Section, app: AppView) -> RowView {
    RowView::App { name: app.name, detail: app.detail, kill: section.kill_of(app.id) }
}

/// The rows of a section without what sets it off: its title, then its programs.
pub open spec fn section_rows(section: Section, apps: Seq<AppView>) -> Seq<RowView> {
    seq![RowView::Heading(section.title())] + apps.map_values(
        |app: AppView| app_row(section, app),
    )
}

/// `rows` and a section after them. An empty section is left out, and a line
/// sets a section off from what comes before it.
pub open spec fn with_section(rows: Seq<RowView>, section: Section, apps: Seq<AppView>) -> Seq<
    RowView,
> {
    if apps.len() == 0 {
        rows
    } else if rows.len() == 0 {
        section_rows(section, apps)
    } else {
        rows.push(RowView::Divider) + section_rows(section, apps)
    }
}

/// The rows of the popup.
pub open spec fn rows_of(
    cameras: Seq<AppView>,
    microphones: Seq<AppView>,
    screenshares: Seq<AppView>,
) -> Seq<RowView> {
    let rows = with_section(Seq::empty(), Section::Camera, cameras);
    let rows = with_section(rows, Section::Microphone, microphones);
    with_section(rows, Section::ScreenShare, screenshares)
}

/// Adds a section to the rows.
fn push_section(rows: &mut Vec<Row>, section: Section, apps: &Vec<AppInfo<'_>>)
    ensures
        row_views(final(rows)@) == with_section(
            row_views(old(rows)@),
            section,
            app_views(apps@),
        ),
{
    if apps.len() == 0 {
        return;
    }
    let ghost before = row_views(rows@);
    if rows.len() > 0 {
        rows.push(Row::Divider);
        assert(row_views(rows@) =~= before.push(RowView::Divider));
    }
    let ghost start = row_views(rows@);
    rows.push(Row::Heading(section.label().to_owned()));
    let ghost views = app_views(apps@);
    let ghost wanted = views.map_values(|app: AppView| app_row(section, app));
    let mut i: usize = 0;
    assert(row_views(rows@) =~= start + seq![RowView::Heading(section.title())] + wanted.take(0));
    while i < apps.len()
        invariant
            i <= apps@.len(),
            views == app_views(apps@),
            wanted == views.map_values(|app: AppView| app_row(section, app)),
            row_views(rows@) == start + seq![RowView::Heading(section.title())] + wanted.take(
                i as int,
            ),
        decreases apps@.len() - i,
    {
        let app = &apps[i];
        let row = Row::App {
            name: copy_text(&app.name),
            detail: match &app.detail {
                Some(detail) => Some(copy_text(detail)),
                None => None,
            },
            kill: section.kill(app.id),
        };
        assert(row@ == wanted[i as int]);
        let ghost shorter = row_views(rows@);
        rows.push(row);
        assert(row_views(rows@) =~= shorter.push(row@));
        assert(wanted.take(i + 1) =~= wanted.take(i as int).push(wanted[i as int]));
        assert(row_views(rows@) =~= start + seq![RowView::Heading(section.title())] + wanted.take(
            i + 1,
        ));
        i = i + 1;
    }
    assert(wanted.take(i as int) =~= wanted);
    assert(row_views(rows@) =~= with_section(before, section, views));
}

/// The rows of the popup: the programs that use a camera, then those that use a
/// microphone, then those that share the screen.
pub fn popup_rows(
    cameras: &Vec<AppInfo<'_>>,
    microphones: &Vec<AppInfo<'_>>,
    screenshares: &Vec<AppInfo<'_>>,
) -> (r: Vec<Row>)
    ensures
        row_views(r@) == rows_of(
            app_views(cameras@),
            app_views(microphones@),
            app_views(screenshares@),
        ),
{
    let mut rows: Vec<Row> = Vec::new();
    assert(row_views(rows@) =~= Seq::<RowView>::empty());
    push_section(&mut rows, Section::Camera, cameras);
    push_section(&mut rows, Section::Microphone, microphones);
    push_section(&mut rows, Section::ScreenShare, screenshares);
    rows
}

} // verus!
