//! What stands in the popup, row by row.

use vstd::prelude::*;

use crate::applet::{AppView, MessageView};
use crate::popup::{app_row, rows_of, with_section, RowView, Section};

verus! {

/// What the kill button of a process sends: the process is named by its own id.
pub open spec fn process_button(id: u32) -> Option<MessageView> {
    if id > 0 {
        Some(MessageView::KillProcess(id))
    } else {
        None
    }
}

/// What the kill button of a node sends: the node is named by its own id.
pub open spec fn node_button(id: u32) -> Option<MessageView> {
    if id > 0 {
        Some(MessageView::DisconnectNode(id))
    } else {
        None
    }
}

/// Whether a row shows a program under its name and label, with this button.
pub open spec fn shows(row: RowView, app: AppView, button: Option<MessageView>) -> bool {
    row matches RowView::App { name, detail, kill } && name == app.name && detail == app.detail
        && kill == button
}

/// The row of a program shows the program's own name and label, and its button
/// ends just that program's process or disconnects just its node.
pub proof fn law_row_is_that_of_its_program(app: AppView)
    ensures
        shows(app_row(Section::Camera, app), app, process_button(app.id)),
        shows(app_row(Section::Microphone, app), app, node_button(app.id)),
        shows(app_row(Section::ScreenShare, app), app, node_button(app.id)),
{
}

/// The buttons of two programs of a section do the same only if the programs
/// have the same id.
pub proof fn law_buttons_differ(section: Section, a: u32, b: u32)
    requires
        a > 0,
    ensures
        section.kill_of(a) == section.kill_of(b) ==> a == b,
{
}

/// How many rows there are once a section of so many programs is added to
/// `rows`: its title and a line before it come with the programs.
pub open spec fn rows_after(rows: int, programs: int) -> int {
    if programs == 0 {
        rows
    } else {
        section_start(rows) + 1 + programs
    }
}

/// Where the title of a section stands that comes after `rows` rows: at the top,
/// or with one row in between.
pub open spec fn section_start(rows: int) -> int {
    if rows == 0 {
        0
    } else {
        rows + 1
    }
}

/// Whether a section that comes after `before` rows stands there: a line if
/// something comes before it, then its title, then its programs in order.
pub open spec fn has_section(
    rows: Seq<RowView>,
    before: int,
    title: Seq<char>,
    apps: Seq<AppView>,
    button: spec_fn(u32) -> Option<MessageView>,
) -> bool {
    let start = section_start(before);
    apps.len() > 0 ==> {
        &&& start + apps.len() < rows.len()
        &&& before > 0 ==> rows[before] == RowView::Divider
        &&& rows[start] == RowView::Heading(title)
        &&& forall|i: int|
            0 <= i < apps.len() ==> shows(
                rows[start + 1 + i],
                #[trigger] apps[i],
                button(apps[i].id),
            )
    }
}

/// A section is added below the rows that are there.
proof fn lemma_section_is_added(
    rows: Seq<RowView>,
    section: Section,
    apps: Seq<AppView>,
    button: spec_fn(u32) -> Option<MessageView>,
)
    requires
        forall|id: u32| section.kill_of(id) == #[trigger] button(id),
    ensures
        with_section(rows, section, apps).len() == rows_after(
            rows.len() as int,
            apps.len() as int,
        ),
        rows.len() <= with_section(rows, section, apps).len(),
        forall|i: int|
            0 <= i < rows.len() ==> #[trigger] with_section(rows, section, apps)[i] == rows[i],
        has_section(
            with_section(rows, section, apps),
            rows.len() as int,
            section.title(),
            apps,
            button,
        ),
{
    let more = with_section(rows, section, apps);
    let start = section_start(rows.len() as int);
    if apps.len() > 0 {
        assert forall|i: int| 0 <= i < apps.len() implies shows(
            more[start + 1 + i],
            #[trigger] apps[i],
            button(apps[i].id),
        ) by {
            assert(more[start + 1 + i] == app_row(section, apps[i]));
        }
    }
}

/// Rows that are kept below the place of a section keep the section.
proof fn lemma_section_is_kept(
    rows: Seq<RowView>,
    more: Seq<RowView>,
    before: int,
    title: Seq<char>,
    apps: Seq<AppView>,
    button: spec_fn(u32) -> Option<MessageView>,
)
    requires
        0 <= before,
        has_section(rows, before, title, apps, button),
        rows.len() <= more.len(),
        forall|i: int| 0 <= i < rows.len() ==> #[trigger] more[i] == rows[i],
    ensures
        has_section(more, before, title, apps, button),
{
    let start = section_start(before);
    if apps.len() > 0 {
        assert(more[start] == rows[start]);
        if before > 0 {
            assert(more[before] == rows[before]);
        }
        assert forall|i: int| 0 <= i < apps.len() implies shows(
            more[start + 1 + i],
            #[trigger] apps[i],
            button(apps[i].id),
        ) by {
            assert(more[start + 1 + i] == rows[start + 1 + i]);
        }
    }
}

/// The popup has three sections, from the top: `Camera` with the processes that
/// use one, `Microphone` and `Screen Share` with the nodes. A section without
/// programs is left out; in the others each program has its row, in order, with
/// the button that ends it. There are no other rows.
pub proof fn law_popup_layout(
    cameras: Seq<AppView>,
    microphones: Seq<AppView>,
    screenshares: Seq<AppView>,
)
    ensures
        ({
            let rows = rows_of(cameras, microphones, screenshares);
            let first = rows_after(0, cameras.len() as int);
            let second = rows_after(first, microphones.len() as int);
            &&& rows.len() == rows_after(second, screenshares.len() as int)
            &&& has_section(rows, 0, "Camera"@, cameras, |id: u32| process_button(id))
            &&& has_section(rows, first, "Microphone"@, microphones, |id: u32| node_button(id))
            &&& has_section(rows, second, "Screen Share"@, screenshares, |id: u32| node_button(id))
        }),
{
    let processes = |id: u32| process_button(id);
    let nodes = |id: u32| node_button(id);
    let none = Seq::<RowView>::empty();
    let one = with_section(none, Section::Camera, cameras);
    let two = with_section(one, Section::Microphone, microphones);
    let three = with_section(two, Section::ScreenShare, screenshares);
    lemma_section_is_added(none, Section::Camera, cameras, processes);
    lemma_section_is_added(one, Section::Microphone, microphones, nodes);
    lemma_section_is_added(two, Section::ScreenShare, screenshares, nodes);
    lemma_section_is_kept(one, two, 0, "Camera"@, cameras, processes);
    lemma_section_is_kept(two, three, 0, "Camera"@, cameras, processes);
    lemma_section_is_kept(two, three, one.len() as int, "Microphone"@, microphones, nodes);
}

} // verus!
