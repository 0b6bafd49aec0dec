//! Exports: which pictures are written, with which settings, and the dialog that asks for them.

use vstd::prelude::*;
use crate::options::PipelineOptions;
use crate::settings::{apply_export_format_to_options, ExportFormat};
use crate::text::append_decimal;

verus! {

/// The picture whose output settings an export goes by: the selected one, else the first.
pub open spec fn template(selected: Option<usize>, images: usize) -> Option<usize> {
    match selected {
        Some(i) => if i < images {
            Some(i)
        } else if images > 0 {
            Some(0)
        } else {
            None
        },
        None => if images > 0 {
            Some(0)
        } else {
            None
        },
    }
}

/// The picture whose output settings an export goes by.
pub fn export_template(selected: Option<usize>, images: usize) -> (r: Option<usize>)
    ensures
        r == template(selected, images),
{
    if let Some(i) = selected {
        if i < images {
            return Some(i);
        }
    }
    if images > 0 {
        Some(0)
    } else {
        None
    }
}

/// Settings with the output of another picture: what is written, and in which format.
pub open spec fn with_output_of(opts: PipelineOptions, template: PipelineOptions) -> PipelineOptions {
    PipelineOptions {
        format: template.format,
        write_exr: template.write_exr,
        write_jpeg: template.write_jpeg,
        write_jpeg_only: template.write_jpeg_only,
        export_aces_exr: template.export_aces_exr,
        write_aces2065_only: template.write_aces2065_only,
        ..opts
    }
}

/// Gives a picture of a batch the output of the template.
pub fn take_output_of(opts: PipelineOptions, template: &PipelineOptions) -> (r: PipelineOptions)
    ensures
        r == with_output_of(opts, *template),
{
    PipelineOptions {
        format: template.format,
        write_exr: template.write_exr,
        write_jpeg: template.write_jpeg,
        write_jpeg_only: template.write_jpeg_only,
        export_aces_exr: template.export_aces_exr,
        write_aces2065_only: template.write_aces2065_only,
        ..opts
    }
}

/// All pictures of a batch are written in the same way: the template does not change by being
/// given its own output, and what a picture was set to before does not matter.
pub proof fn batch_writes_one_format(
    first: PipelineOptions,
    second: PipelineOptions,
    template: PipelineOptions,
)
    ensures
        with_output_of(template, template) == template,
        with_output_of(first, template).format == with_output_of(second, template).format,
        with_output_of(first, template).write_exr == with_output_of(second, template).write_exr,
        with_output_of(first, template).write_jpeg == with_output_of(second, template).write_jpeg,
        with_output_of(first, template).write_jpeg_only == with_output_of(
            second,
            template,
        ).write_jpeg_only,
        with_output_of(first, template).write_aces2065_only == with_output_of(
            second,
            template,
        ).write_aces2065_only,
{
}

/// Which pictures are written.
pub open spec fn picked(selected_only: bool, selected: Option<usize>, images: usize) -> Seq<usize> {
    if selected_only {
        match selected {
            Some(i) => if i < images {
                seq![i]
            } else {
                Seq::empty()
            },
            None => Seq::empty(),
        }
    } else {
        Seq::new(images as nat, |i: int| i as usize)
    }
}

/// What becomes of the wish to export.
pub enum ExportStart {
    /// Nothing happens: a job is under way, there is no folder, or nothing to write.
    Refused,
    /// These pictures are written. In a batch they take the output of the picture at
    /// `template`.
    Start { pictures: Vec<usize>, template: Option<usize> },
}

/// Decides on an export.
pub fn start_export(
    busy: bool,
    has_folder: bool,
    selected_only: bool,
    selected: Option<usize>,
    images: usize,
) -> (r: ExportStart)
    ensures
        match r {
            ExportStart::Refused => busy || !has_folder || picked(
                selected_only,
                selected,
                images,
            ).len() == 0,
            ExportStart::Start { pictures, template: t } => {
                &&& !busy
                &&& has_folder
                &&& pictures@ == picked(selected_only, selected, images)
                &&& pictures@.len() > 0
                &&& forall|k: int| 0 <= k < pictures@.len() ==> #[trigger] pictures@[k] < images
                &&& t == if selected_only {
                    None
                } else {
                    template(selected, images)
                }
            },
        },
{
    if busy || !has_folder {
        return ExportStart::Refused;
    }
    let mut pictures: Vec<usize> = Vec::new();
    if selected_only {
        if let Some(i) = selected {
            if i < images {
                pictures.push(i);
            }
        }
        proof {
            assert(pictures@ =~= picked(selected_only, selected, images));
        }
    } else {
        let mut i: usize = 0;
        while i < images
            invariant
                i <= images,
                pictures@.len() == i,
                forall|k: int| 0 <= k < i ==> #[trigger] pictures@[k] == k,
            decreases images - i,
        {
            pictures.push(i);
            i = i + 1;
        }
        proof {
            assert(pictures@ =~= picked(selected_only, selected, images));
        }
    }
    if pictures.len() == 0 {
        return ExportStart::Refused;
    }
    ExportStart::Start {
        pictures,
        template: if selected_only {
            None
        } else {
            export_template(selected, images)
        },
    }
}

/// What the user reads when an export has begun.
pub fn exporting_text(selected_only: bool, total: usize) -> (r: String)
    ensures
        r@ == if selected_only {
            "Exporting selected…"@
        } else {
            "Exporting "@ + crate::text::decimal(total as nat) + " images…"@
        },
{
    if selected_only {
        return "Exporting selected…".to_owned();
    }
    let mut out: String = "Exporting ".to_owned();
    append_decimal(&mut out, total as u64);
    out.append(" images…");
    out
}

/// Which of the two export buttons can be pressed: the one for all, and the one for the
/// selected picture.
pub fn export_buttons(busy: bool, has_folder: bool, selected: Option<usize>, images: usize) -> (r: (
    bool,
    bool,
))
    ensures
        r.0 == (images > 0 && has_folder && !busy),
        r.1 == (selected matches Some(i) && i < images && has_folder && !busy),
{
    (
        images > 0 && has_folder && !busy,
        match selected {
            Some(i) => i < images && has_folder && !busy,
            None => false,
        },
    )
}

/// The dialog that asks what a batch writes.
#[derive(Debug, Clone, Copy, PartialEq, Eq)]
pub struct BatchExportDialog {
    pub format: ExportFormat,
    pub write_jpeg: bool,
}

impl BatchExportDialog {
    /// The dialog over the output of the template; a JPEG is not offered beside a JPEG.
    pub fn open(format: ExportFormat, options: &PipelineOptions) -> (r: BatchExportDialog)
        ensures
            r.format == format,
            r.write_jpeg == (options.write_jpeg && format != ExportFormat::Jpeg),
    {
        BatchExportDialog {
            format,
            write_jpeg: options.write_jpeg && format != ExportFormat::Jpeg,
        }
    }

    pub open spec fn settled_spec(self) -> BatchExportDialog {
        BatchExportDialog {
            format: self.format,
            write_jpeg: self.write_jpeg && self.format != ExportFormat::Jpeg,
        }
    }

    /// The dialog before it is shown again: a JPEG has no JPEG beside it.
    pub fn settled(self) -> (r: BatchExportDialog)
        ensures
            r == self.settled_spec(),
    {
        BatchExportDialog {
            format: self.format,
            write_jpeg: self.write_jpeg && self.format != ExportFormat::Jpeg,
        }
    }

    /// Settings with what the dialog asks for: its format, and a JPEG beside it as it says. (A
    /// JPEG has none, whatever the dialog says.)
    pub open spec fn applied(self, opts: PipelineOptions) -> PipelineOptions {
        crate::settings::with_format(
            PipelineOptions { write_jpeg: self.write_jpeg, ..opts },
            self.format,
        )
    }

    /// Writes what the dialog asks for to the settings of the template.
    pub fn apply_to(self, opts: PipelineOptions) -> (r: PipelineOptions)
        ensures
            r == self.applied(opts),
    {
        let mut out: PipelineOptions = PipelineOptions { write_jpeg: self.write_jpeg, ..opts };
        apply_export_format_to_options(&mut out, self.format);
        out
    }
}

/// An export never writes a JPEG beside the JPEG that is asked for.
pub proof fn jpeg_has_no_jpeg_beside_it(dialog: BatchExportDialog, opts: PipelineOptions)
    requires
        dialog.format == ExportFormat::Jpeg,
    ensures
        !dialog.applied(opts).write_jpeg,
        dialog.applied(opts).write_jpeg_only,
        !dialog.settled_spec().write_jpeg,
{
}

} // verus!
