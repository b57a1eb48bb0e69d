//! Saving and exporting the model: what is asked before, what is written where,
//! and what the user is told.

use vstd::prelude::*;
use vstd::string::*;

use crate::format::{FormatRegistry, HandlerInfo, RobotFormat};
use crate::robot::RobotModel;
use crate::text::{around, contains, first_word, same, same_ignoring_case, starts_with};

verus! {

/// What waits for the user to accept what the format cannot express.
#[derive(Clone, Copy, PartialEq, Eq, Structural, Debug)]
pub enum PendingExportAction {
    Save,
    Export,
}

/// The state of saving and exporting. `I` is what a format cannot express.
pub struct ExportState<I> {
    pub export_dir: String,
    pub export_format: RobotFormat,
    pub export_message: String,
    pub export_compat_issues: Vec<I>,
    pub pending_export_action: Option<PendingExportAction>,
    pub show_export_dialog: bool,
}

pub open spec fn no_model_text() -> Seq<char> {
    "\u{26a0} No model loaded."@
}

pub open spec fn no_source_text() -> Seq<char> {
    "\u{26a0} New model has no source file. Use Export instead."@
}

pub open spec fn no_dir_text() -> Seq<char> {
    "\u{26a0} Please specify an output directory."@
}

// ---------------------------------------------------------------- handlers

/// `i` is the first handler of which `fits` holds.
pub open spec fn first_fitting(
    handlers: Seq<crate::format::HandlerView>,
    fits: spec_fn(crate::format::HandlerView) -> bool,
    i: int,
) -> bool {
    &&& 0 <= i < handlers.len()
    &&& fits(handlers[i])
    &&& forall|j: int| 0 <= j < i ==> !fits(#[trigger] handlers[j])
}

/// The handler that a model is saved with: the one called "URDF".
pub open spec fn saves(h: crate::format::HandlerView) -> bool {
    h.name == "URDF"@
}

/// The handler that a format is exported with: its name is the first word of the
/// format's label, whatever the case, or holds it.
pub open spec fn exports(h: crate::format::HandlerView, format: RobotFormat) -> bool {
    let word = crate::text::first_word_of(format.label_of());
    crate::text::equal_ignoring_case(h.name, word) || crate::text::is_infix(h.name, word)
}

/// The handler that a model is saved with.
pub fn save_handler(registry: &FormatRegistry) -> (r: Option<usize>)
    ensures
        match r {
            Some(i) => first_fitting(
                registry@,
                (|h: crate::format::HandlerView| saves(h)),
                i as int,
            ),
            None => forall|j: int| 0 <= j < registry@.len() ==> !saves(#[trigger] registry@[j]),
        },
{
    let all: &Vec<HandlerInfo> = registry.handlers();
    let ghost views = all@.map_values(|h: HandlerInfo| h@);
    let mut i: usize = 0;
    while i < all.len()
        invariant
            i <= all.len(),
            views == all@.map_values(|h: HandlerInfo| h@),
            views == registry@,
            forall|j: int| 0 <= j < i ==> !saves(#[trigger] registry@[j]),
        decreases all.len() - i,
    {
        proof {
            assert(views[i as int] == all@[i as int]@);
        }
        if same(all[i].name.as_str(), "URDF") {
            return Some(i);
        }
        i += 1;
    }
    None
}

/// The handler that a format is exported with.
pub fn export_handler(registry: &FormatRegistry, format: RobotFormat) -> (r: Option<usize>)
    ensures
        match r {
            Some(i) => first_fitting(
                registry@,
                (|h: crate::format::HandlerView| exports(h, format)),
                i as int,
            ),
            None => forall|j: int|
                0 <= j < registry@.len() ==> !exports(#[trigger] registry@[j], format),
        },
{
    let word: &str = first_word(format.label());
    let all: &Vec<HandlerInfo> = registry.handlers();
    let ghost views = all@.map_values(|h: HandlerInfo| h@);
    let mut i: usize = 0;
    while i < all.len()
        invariant
            i <= all.len(),
            word@ == crate::text::first_word_of(format.label_of()),
            views == all@.map_values(|h: HandlerInfo| h@),
            views == registry@,
            forall|j: int| 0 <= j < i ==> !exports(#[trigger] registry@[j], format),
        decreases all.len() - i,
    {
        proof {
            assert(views[i as int] == all@[i as int]@);
        }
        let name: &str = all[i].name.as_str();
        if same_ignoring_case(name, word) || contains(name, word) {
            return Some(i);
        }
        i += 1;
    }
    None
}

// ---------------------------------------------------------------- saving

/// Where a model is saved.
#[derive(Clone, Copy, PartialEq, Eq, Structural, Debug)]
pub enum SaveTarget {
    /// The master format, in place.
    Misa,
    /// URDF in place, with the sidecar beside it.
    Urdf,
}

/// What a file is called on the disk, by its format.
pub open spec fn export_suffix(format: RobotFormat) -> Option<Seq<char>> {
    match format {
        RobotFormat::Urdf => Some(".urdf"@),
        RobotFormat::Sdf => Some(".sdf"@),
        RobotFormat::Mjcf => Some(".xml"@),
        RobotFormat::IsaacUsd => None,
        RobotFormat::Misa => Some(".misa"@),
    }
}

/// The name of an exported file; `None` where the exporter names the files in
/// the directory itself.
pub fn export_file_name(format: RobotFormat, base: &str) -> (r: Option<String>)
    ensures
        r is Some <==> export_suffix(format) is Some,
        r matches Some(n) ==> n@ == base@ + export_suffix(format)->0,
{
    let suffix: &str = match format {
        RobotFormat::Urdf => ".urdf",
        RobotFormat::Sdf => ".sdf",
        RobotFormat::Mjcf => ".xml",
        RobotFormat::IsaacUsd => {
            return None;
        },
        RobotFormat::Misa => ".misa",
    };
    let mut name: String = String::from_str(base);
    name.append(suffix);
    Some(name)
}

/// Calls `std::path::Path::file_stem` on a path given as a string. It is the file name
/// without its last dot and what follows; a name without a dot but in front is left
/// whole, and a path without a file name has none. What counts as a separator in
/// other paths depends on the platform and is left open.
#[verifier::external_body]
fn path_stem(path: &str) -> (r: Option<String>)
    ensures
        crate::format::is_portable(path@) ==> crate::format::portable_stem(path@) == match r {
            Some(s) => Some(s@),
            None => None,
        },
{
    let stem = std::path::Path::new(path).file_stem()?;
    Some(stem.to_string_lossy().into_owned())
}

/// What exported files are called after, given the stem of the source file.
pub fn base_name(stem: Option<String>, model: &RobotModel) -> (r: String)
    ensures
        r@ == match stem {
            Some(s) => s@,
            None => model.name@,
        },
{
    match stem {
        Some(s) => s,
        None => model.name.clone(),
    }
}

/// What exported files are called after: the source file without its extension,
/// or the model where it has no source file with a name.
pub fn export_base_name(model: &RobotModel) -> (r: String)
    ensures
        model.source_path is None ==> r@ == model.name@,
        model.source_path matches Some(p) ==> crate::format::is_portable(p@) ==> r@ == (
        match crate::format::portable_stem(p@) {
            Some(stem) => stem,
            None => model.name@,
        }),
{
    let stem: Option<String> = match &model.source_path {
        Some(p) => path_stem(p.as_str()),
        None => None,
    };
    base_name(stem, model)
}

/// A failure of the sidecar, as it is appended to the message.
pub open spec fn sidecar_note(sidecar: Result<(), String>) -> Seq<char> {
    match sidecar {
        Ok(_) => Seq::empty(),
        Err(e) => " (\u{26a0} config: "@ + e@ + ")"@,
    }
}

/// What the user is told after saving. `saved` holds the path as displayed.
pub open spec fn save_message(
    target: SaveTarget,
    saved: Result<String, String>,
    sidecar: Result<(), String>,
) -> Seq<char> {
    match saved {
        Err(e) => "\u{26a0} Save failed: "@ + e@,
        Ok(path) => match target {
            SaveTarget::Misa => "\u{2714} Saved Misa to "@ + path@,
            SaveTarget::Urdf => "\u{2714} Saved to "@ + path@ + sidecar_note(sidecar),
        },
    }
}

/// What an export is called in messages.
pub open spec fn export_word(format: RobotFormat) -> Seq<char> {
    match format {
        RobotFormat::Urdf => "URDF"@,
        RobotFormat::Sdf => "SDF"@,
        RobotFormat::Mjcf => "MJCF"@,
        RobotFormat::IsaacUsd => "USD"@,
        RobotFormat::Misa => "Misa"@,
    }
}

/// What the user is told of the exported file itself.
pub open spec fn exported_text(format: RobotFormat, exported: Result<String, String>) -> Seq<char> {
    match exported {
        Err(e) => "\u{26a0} "@ + export_word(format) + " export failed: "@ + e@,
        Ok(path) => match format {
            RobotFormat::Urdf => "\u{2714} Exported URDF to "@ + path@ + " (with meshes)"@,
            RobotFormat::Sdf => "\u{2714} Exported SDF to "@ + path@ + " (with meshes)"@,
            RobotFormat::Mjcf => "\u{2714} Exported MJCF to "@ + path@,
            RobotFormat::IsaacUsd => "\u{2714} Exported USD ASCII to "@ + path@,
            RobotFormat::Misa => "\u{2714} Exported Misa to "@ + path@
                + " (full state preserved \u{2014} no sidecar needed)"@,
        },
    }
}

/// Whether an export comes with a sidecar: the master format needs none.
pub fn needs_sidecar(format: RobotFormat) -> (r: bool)
    ensures
        r == (format != RobotFormat::Misa),
{
    format != RobotFormat::Misa
}

fn append_sidecar(message: &mut String, sidecar: &Result<(), String>)
    ensures
        final(message)@ == old(message)@ + sidecar_note(*sidecar),
{
    match sidecar {
        Ok(_) => {
            proof {
                assert(message@ + Seq::<char>::empty() =~= message@);
            }
        },
        Err(e) => {
            let note: String = around(" (\u{26a0} config: ", e.as_str(), ")");
            message.append(note.as_str());
        },
    }
}

fn after(prefix: &str, e: &str) -> (r: String)
    ensures
        r@ == prefix@ + e@,
{
    let mut text: String = String::from_str(prefix);
    text.append(e);
    text
}

impl<I> ExportState<I> {
    /// The state with another message and nothing else changed.
    pub open spec fn tells(&self, was: Self, text: Seq<char>) -> bool {
        &&& self.export_message@ == text
        &&& *self == (ExportState { export_message: self.export_message, ..was })
    }

    /// The save button. `issues` is what the format of the save handler cannot
    /// express of the model. Returns whether the file is to be written now;
    /// otherwise the user is told why not, or asked first.
    pub fn do_save(&mut self, model: Option<&RobotModel>, issues: Vec<I>) -> (now: bool)
        ensures
            now <==> model is Some && model->0.source_path is Some && issues@.len() == 0,
            now ==> *final(self) == *old(self),
            model is None ==> final(self).tells(*old(self), no_model_text()),
            model matches Some(m) ==> {
                &&& m.source_path is None ==> final(self).tells(*old(self), no_source_text())
                &&& m.source_path is Some && issues@.len() > 0 ==> *final(self) == (ExportState {
                    export_compat_issues: issues,
                    pending_export_action: Some(PendingExportAction::Save),
                    ..*old(self)
                })
            },
    {
        match model {
            None => {
                self.export_message = String::from_str("\u{26a0} No model loaded.");
                false
            },
            Some(m) => {
                if m.source_path.is_none() {
                    self.export_message = String::from_str(
                        "\u{26a0} New model has no source file. Use Export instead.",
                    );
                    false
                } else if issues.len() == 0 {
                    true
                } else {
                    self.export_compat_issues = issues;
                    self.pending_export_action = Some(PendingExportAction::Save);
                    false
                }
            },
        }
    }

    /// What is to be written on saving, given the format of the source file.
    /// Only a source in the master format is saved as such.
    pub fn save_now(&mut self, model: Option<&RobotModel>, format: Option<RobotFormat>) -> (r:
        Option<SaveTarget>)
        ensures
            r is Some <==> model is Some && model->0.source_path is Some,
            r is Some ==> *final(self) == *old(self),
            r matches Some(t) ==> t == (if format == Some(RobotFormat::Misa) {
                SaveTarget::Misa
            } else {
                SaveTarget::Urdf
            }),
            model is None ==> final(self).tells(*old(self), no_model_text()),
            model matches Some(m) ==> (m.source_path is None ==> final(self).tells(
                *old(self),
                no_source_text(),
            )),
    {
        match model {
            None => {
                self.export_message = String::from_str("\u{26a0} No model loaded.");
                None
            },
            Some(m) => {
                if m.source_path.is_none() {
                    self.export_message = String::from_str(
                        "\u{26a0} New model has no source file. Use Export instead.",
                    );
                    None
                } else {
                    match format {
                        Some(RobotFormat::Misa) => Some(SaveTarget::Misa),
                        _ => Some(SaveTarget::Urdf),
                    }
                }
            },
        }
    }

    /// The file was written, or could not be.
    pub fn saved(
        &mut self,
        target: SaveTarget,
        saved: &Result<String, String>,
        sidecar: &Result<(), String>,
    )
        ensures
            final(self).tells(*old(self), save_message(target, *saved, *sidecar)),
    {
        self.export_message = match saved {
            Err(e) => after("\u{26a0} Save failed: ", e.as_str()),
            Ok(path) => match target {
                SaveTarget::Misa => after("\u{2714} Saved Misa to ", path.as_str()),
                SaveTarget::Urdf => {
                    let mut text: String = after("\u{2714} Saved to ", path.as_str());
                    append_sidecar(&mut text, sidecar);
                    text
                },
            },
        };
    }

    /// The export button. `issues` is what the format of the export handler
    /// cannot express of the model. Returns whether to export now.
    pub fn do_export(&mut self, model: Option<&RobotModel>, issues: Vec<I>) -> (now: bool)
        ensures
            now <==> old(self).export_dir@.len() > 0 && model is Some && issues@.len() == 0,
            now ==> *final(self) == *old(self),
            old(self).export_dir@.len() == 0 ==> final(self).tells(*old(self), no_dir_text()),
            old(self).export_dir@.len() > 0 && model is None ==> final(self).tells(
                *old(self),
                no_model_text(),
            ),
            old(self).export_dir@.len() > 0 && model is Some && issues@.len() > 0 ==> *final(self)
                == (ExportState {
                export_compat_issues: issues,
                pending_export_action: Some(PendingExportAction::Export),
                ..*old(self)
            }),
    {
        if self.export_dir.as_str().is_empty() {
            self.export_message = String::from_str("\u{26a0} Please specify an output directory.");
            proof {
                assert(old(self).export_dir@.len() == 0);
            }
            return false;
        }
        match model {
            None => {
                self.export_message = String::from_str("\u{26a0} No model loaded.");
                false
            },
            Some(_) => {
                if issues.len() == 0 {
                    true
                } else {
                    self.export_compat_issues = issues;
                    self.pending_export_action = Some(PendingExportAction::Export);
                    false
                }
            },
        }
    }

    /// Whether an export can go ahead. `made` is what came of making the output
    /// directory, which is tried only where there is one to make.
    pub fn export_now(&mut self, model: Option<&RobotModel>, made: &Result<(), String>) -> (go: bool)
        ensures
            go <==> old(self).export_dir@.len() > 0 && model is Some && *made is Ok,
            go ==> *final(self) == *old(self),
            old(self).export_dir@.len() == 0 ==> final(self).tells(*old(self), no_dir_text()),
            old(self).export_dir@.len() > 0 && model is None ==> final(self).tells(
                *old(self),
                no_model_text(),
            ),
            old(self).export_dir@.len() > 0 && model is Some && *made is Err ==> final(self).tells(
                *old(self),
                "\u{26a0} Cannot create dir: "@ + made->Err_0@,
            ),
    {
        if self.export_dir.as_str().is_empty() {
            self.export_message = String::from_str("\u{26a0} Please specify an output directory.");
            proof {
                assert(old(self).export_dir@.len() == 0);
            }
            return false;
        }
        match model {
            None => {
                self.export_message = String::from_str("\u{26a0} No model loaded.");
                false
            },
            Some(_) => match made {
                Ok(_) => true,
                Err(e) => {
                    self.export_message = after("\u{26a0} Cannot create dir: ", e.as_str());
                    false
                },
            },
        }
    }

    /// The export was written, or could not be. A sidecar goes with every format
    /// but the master format, whatever became of the file.
    pub fn exported(&mut self, exported: &Result<String, String>, sidecar: &Result<(), String>)
        ensures
            final(self).tells(
                *old(self),
                if old(self).export_format == RobotFormat::Misa {
                    exported_text(old(self).export_format, *exported)
                } else {
                    exported_text(old(self).export_format, *exported) + sidecar_note(*sidecar)
                },
            ),
    {
        let format: RobotFormat = self.export_format;
        let mut text: String = match exported {
            Err(e) => match format {
                RobotFormat::Urdf => around("\u{26a0} ", "URDF", " export failed: "),
                RobotFormat::Sdf => around("\u{26a0} ", "SDF", " export failed: "),
                RobotFormat::Mjcf => around("\u{26a0} ", "MJCF", " export failed: "),
                RobotFormat::IsaacUsd => around("\u{26a0} ", "USD", " export failed: "),
                RobotFormat::Misa => around("\u{26a0} ", "Misa", " export failed: "),
            }.concat(e.as_str()),
            Ok(path) => match format {
                RobotFormat::Urdf => around(
                    "\u{2714} Exported URDF to ",
                    path.as_str(),
                    " (with meshes)",
                ),
                RobotFormat::Sdf => around(
                    "\u{2714} Exported SDF to ",
                    path.as_str(),
                    " (with meshes)",
                ),
                RobotFormat::Mjcf => after("\u{2714} Exported MJCF to ", path.as_str()),
                RobotFormat::IsaacUsd => after("\u{2714} Exported USD ASCII to ", path.as_str()),
                RobotFormat::Misa => around(
                    "\u{2714} Exported Misa to ",
                    path.as_str(),
                    " (full state preserved \u{2014} no sidecar needed)",
                ),
            },
        };
        if format != RobotFormat::Misa {
            append_sidecar(&mut text, sidecar);
        }
        self.export_message = text;
    }

    /// Whether the message reports a success.
    pub fn succeeded(&self) -> (r: bool)
        ensures
            r == crate::text::occurs_at(self.export_message@, "\u{2714}"@, 0),
    {
        starts_with(self.export_message.as_str(), "\u{2714}")
    }

    /// The end of a frame of the export window: it stays while its own close
    /// button has not been used.
    pub fn close_frame(&mut self, window_open: bool)
        ensures
            *final(self) == (ExportState { show_export_dialog: window_open, ..*old(self) }),
    {
        self.show_export_dialog = window_open;
    }

    /// The user's answer to what a format cannot express. Closing the window
    /// counts as a refusal. Returns what is to be carried out now.
    pub fn answer(&mut self, go_on: bool, cancel: bool, window_open: bool) -> (r: Option<
        PendingExportAction,
    >)
        ensures
            ({
                let asked = old(self).pending_export_action;
                let answered = go_on || cancel || !window_open;
                if asked is None || !answered {
                    r is None && *final(self) == *old(self)
                } else {
                    &&& r == (if go_on && !cancel && window_open {
                        asked
                    } else {
                        None
                    })
                    &&& final(self).export_compat_issues@.len() == 0
                    &&& *final(self) == (ExportState {
                        pending_export_action: None,
                        export_compat_issues: final(self).export_compat_issues,
                        ..*old(self)
                    })
                }
            }),
    {
        match self.pending_export_action {
            None => None,
            Some(action) => {
                if !(go_on || cancel || !window_open) {
                    return None;
                }
                self.pending_export_action = None;
                self.export_compat_issues = Vec::new();
                if go_on && !cancel && window_open {
                    Some(action)
                } else {
                    None
                }
            },
        }
    }
}

/// A message of success starts with its mark, one of failure does not.
pub proof fn law_success_is_marked(
    format: RobotFormat,
    target: SaveTarget,
    result: Result<String, String>,
    sidecar: Result<(), String>,
)
    ensures
        exported_text(format, result).len() > 0,
        save_message(target, result, sidecar).len() > 0,
        (exported_text(format, result)[0] == '\u{2714}') == (result is Ok),
        (save_message(target, result, sidecar)[0] == '\u{2714}') == (result is Ok),
{
    reveal_strlit("\u{26a0} ");
    reveal_strlit("\u{26a0} Save failed: ");
    reveal_strlit("\u{2714} Saved Misa to ");
    reveal_strlit("\u{2714} Saved to ");
    reveal_strlit("\u{2714} Exported URDF to ");
    reveal_strlit("\u{2714} Exported SDF to ");
    reveal_strlit("\u{2714} Exported MJCF to ");
    reveal_strlit("\u{2714} Exported USD ASCII to ");
    reveal_strlit("\u{2714} Exported Misa to ");
}

/// Each format is written under its own ending, and one of them under none.
pub proof fn law_endings()
    ensures
        export_suffix(RobotFormat::Urdf) == Some(".urdf"@),
        export_suffix(RobotFormat::Sdf) == Some(".sdf"@),
        export_suffix(RobotFormat::Mjcf) == Some(".xml"@),
        export_suffix(RobotFormat::Misa) == Some(".misa"@),
        export_suffix(RobotFormat::IsaacUsd) is None,
{
}

/// A failure is told with its reason, and a success with the path that was written.
pub proof fn law_results_are_told(
    format: RobotFormat,
    target: SaveTarget,
    text: String,
    sidecar: Result<(), String>,
)
    ensures
        save_message(target, Err(text), sidecar) == "\u{26a0} Save failed: "@ + text@,
        save_message(SaveTarget::Misa, Ok(text), sidecar) == "\u{2714} Saved Misa to "@ + text@,
        save_message(SaveTarget::Urdf, Ok(text), Ok(())) =~= "\u{2714} Saved to "@ + text@,
        (sidecar matches Err(e)) ==> save_message(SaveTarget::Urdf, Ok(text), sidecar)
            == "\u{2714} Saved to "@ + text@ + (" (\u{26a0} config: "@ + sidecar->Err_0@ + ")"@),
        exported_text(format, Err(text)) == "\u{26a0} "@ + export_word(format)
            + " export failed: "@ + text@,
        export_word(RobotFormat::Urdf) == "URDF"@,
        export_word(RobotFormat::Sdf) == "SDF"@,
        export_word(RobotFormat::Mjcf) == "MJCF"@,
        export_word(RobotFormat::IsaacUsd) == "USD"@,
        export_word(RobotFormat::Misa) == "Misa"@,
        exported_text(RobotFormat::Urdf, Ok(text)) == "\u{2714} Exported URDF to "@ + text@
            + " (with meshes)"@,
        exported_text(RobotFormat::Sdf, Ok(text)) == "\u{2714} Exported SDF to "@ + text@
            + " (with meshes)"@,
        exported_text(RobotFormat::Mjcf, Ok(text)) == "\u{2714} Exported MJCF to "@ + text@,
        exported_text(RobotFormat::IsaacUsd, Ok(text)) == "\u{2714} Exported USD ASCII to "@ + text@,
        exported_text(RobotFormat::Misa, Ok(text)) == "\u{2714} Exported Misa to "@ + text@
            + " (full state preserved \u{2014} no sidecar needed)"@,
{
    assert("\u{2714} Saved to "@ + text@ + Seq::<char>::empty() =~= "\u{2714} Saved to "@ + text@);
}

/// A handler saves where it is the one of the plain format, and exports a format whose first
/// word is its name in either case, or is part of its name.
pub proof fn law_handlers_fit(h: crate::format::HandlerView, format: RobotFormat)
    ensures
        saves(h) <==> h.name == "URDF"@,
        h.name == crate::text::first_word_of(format.label_of()) ==> exports(h, format),
        crate::text::equal_ignoring_case(h.name, crate::text::first_word_of(format.label_of()))
            ==> exports(h, format),
        crate::text::is_infix(h.name, crate::text::first_word_of(format.label_of())) ==> exports(
            h,
            format,
        ),
        exports(h, format) ==> crate::text::equal_ignoring_case(
            h.name,
            crate::text::first_word_of(format.label_of()),
        ) || crate::text::is_infix(h.name, crate::text::first_word_of(format.label_of())),
{
}

/// What is told where nothing can be written.
pub proof fn law_refusals()
    ensures
        no_model_text() == "\u{26a0} No model loaded."@,
        no_source_text() == "\u{26a0} New model has no source file. Use Export instead."@,
        no_dir_text() == "\u{26a0} Please specify an output directory."@,
{
}

} // verus!
