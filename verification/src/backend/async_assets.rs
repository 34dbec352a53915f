//! Jobs for the worker that draws labels and icons, and what comes of them.

use crate::backend::icon::{IconSpec, RenderedIconPixels};
use crate::backend::text::{LabelSpec, RenderedLabelPixels};
use vstd::prelude::*;

verus! {

/// A job for the worker.
#[derive(Clone, Debug)]
#[allow(inconsistent_fields)]
pub enum AsyncAssetJob {
    Text { spec_hash: u64, spec: LabelSpec },
    Icon { spec_hash: u64, spec: IconSpec },
}

/// What has come of a job.
#[derive(Clone, Debug)]
pub enum AsyncAssetResult {
    TextReady { spec_hash: u64, width: i32, height: i32, pixels: Vec<u8> },
    TextMissing { spec_hash: u64 },
    IconReady { spec_hash: u64, width: i32, height: i32, pixels: Vec<u8> },
    IconMissing { spec_hash: u64 },
}

/// What has come of drawing a label.
pub open spec fn result_of_text(spec_hash: u64, rendered: Option<RenderedLabelPixels>) -> AsyncAssetResult {
    match rendered {
        Some(label) => AsyncAssetResult::TextReady {
            spec_hash,
            width: label.width,
            height: label.height,
            pixels: label.pixels,
        },
        None => AsyncAssetResult::TextMissing { spec_hash },
    }
}

/// What has come of drawing an icon.
pub open spec fn result_of_icon(spec_hash: u64, rendered: Option<RenderedIconPixels>) -> AsyncAssetResult {
    match rendered {
        Some(icon) => AsyncAssetResult::IconReady {
            spec_hash,
            width: icon.width,
            height: icon.height,
            pixels: icon.pixels,
        },
        None => AsyncAssetResult::IconMissing { spec_hash },
    }
}

/// The result of a job answers to the number of the job, is of its kind, and holds the pixels that were drawn with
/// their size; it is there exactly if something was drawn.
pub proof fn law_results_answer_their_jobs(
    spec_hash: u64,
    label: Option<RenderedLabelPixels>,
    icon: Option<RenderedIconPixels>,
)
    ensures
        match result_of_text(spec_hash, label) {
            AsyncAssetResult::TextReady { spec_hash: answered, width, height, pixels } => answered
                == spec_hash && label is Some && width == label->0.width && height
                == label->0.height && pixels == label->0.pixels,
            AsyncAssetResult::TextMissing { spec_hash: answered } => answered == spec_hash
                && label is None,
            _ => false,
        },
        match result_of_icon(spec_hash, icon) {
            AsyncAssetResult::IconReady { spec_hash: answered, width, height, pixels } => answered
                == spec_hash && icon is Some && width == icon->0.width && height == icon->0.height
                && pixels == icon->0.pixels,
            AsyncAssetResult::IconMissing { spec_hash: answered } => answered == spec_hash
                && icon is None,
            _ => false,
        },
{
}

/// What has come of drawing a label.
pub fn text_result(spec_hash: u64, rendered: Option<RenderedLabelPixels>) -> (result:
    AsyncAssetResult)
    ensures
        result == result_of_text(spec_hash, rendered),
{
    match rendered {
        Some(label) => AsyncAssetResult::TextReady {
            spec_hash,
            width: label.width,
            height: label.height,
            pixels: label.pixels,
        },
        None => AsyncAssetResult::TextMissing { spec_hash },
    }
}

/// What has come of drawing an icon.
pub fn icon_result(spec_hash: u64, rendered: Option<RenderedIconPixels>) -> (result:
    AsyncAssetResult)
    ensures
        result == result_of_icon(spec_hash, rendered),
{
    match rendered {
        Some(icon) => AsyncAssetResult::IconReady {
            spec_hash,
            width: icon.width,
            height: icon.height,
            pixels: icon.pixels,
        },
        None => AsyncAssetResult::IconMissing { spec_hash },
    }
}

} // verus!
