//! Icon asset kinds and their classification by file extension.
//!
//! A path classifies as a raster image (`.png`), a vector image (`.svg`) or
//! a 3D scene asset (`.glb` / `.gltf`); anything else is no icon candidate.
//! A raw candidate either is displayable as it stands or, for a vector
//! image, names the raster target it is to be rendered to.

use vstd::prelude::*;
use vstd::string::*;

use crate::paths::extension;
use crate::paths::extension_of;
use crate::paths::with_extension;
use crate::paths::with_extension_of;

verus! {

/// Spec-level image of a raw icon candidate.
#[verifier::ext_equal]
pub enum RawIconView {
    Png(Seq<char>),
    Svg(Seq<char>),
    Gltf(Seq<char>),
}

/// An icon asset path classified by kind, before any format conversion.
#[derive(Debug, PartialEq, Eq)]
pub enum RawIconType {
    Png(String),
    Svg(String),
    Gltf(String),
}

impl View for RawIconType {
    type V = RawIconView;

    open spec fn view(&self) -> RawIconView {
        match self {
            RawIconType::Png(p) => RawIconView::Png(p@),
            RawIconType::Svg(p) => RawIconView::Svg(p@),
            RawIconType::Gltf(p) => RawIconView::Gltf(p@),
        }
    }
}

impl DeepView for RawIconType {
    type V = RawIconView;

    open spec fn deep_view(&self) -> RawIconView {
        self.view()
    }
}

/// Spec-level image of a display-ready icon.
#[verifier::ext_equal]
pub enum IconView {
    Png(Seq<char>),
    Gltf(Seq<char>),
}

/// A display-ready icon asset path: a raster image or a scene asset.
#[derive(Debug, PartialEq, Eq)]
pub enum Icon {
    Png(String),
    Gltf(String),
}

impl View for Icon {
    type V = IconView;

    open spec fn view(&self) -> IconView {
        match self {
            Icon::Png(p) => IconView::Png(p@),
            Icon::Gltf(p) => IconView::Gltf(p@),
        }
    }
}

impl DeepView for Icon {
    type V = IconView;

    open spec fn deep_view(&self) -> IconView {
        self.view()
    }
}

/// How `p` classifies by its extension, or nothing when the extension is
/// absent or unrecognized.
pub open spec fn classify_of(p: Seq<char>) -> Option<RawIconView> {
    let e = extension_of(p);
    if e == Some("png"@) {
        Some(RawIconView::Png(p))
    } else if e == Some("svg"@) {
        Some(RawIconView::Svg(p))
    } else if e == Some("glb"@) || e == Some("gltf"@) {
        Some(RawIconView::Gltf(p))
    } else {
        None
    }
}

impl RawIconType {
    /// Classify `path` by its extension; an unrecognized or missing
    /// extension yields no candidate.
    pub fn from_path(path: String) -> (r: Option<RawIconType>)
        ensures
            r.deep_view() == classify_of(path@),
    {
        match extension(path.as_str()) {
            None => None,
            Some(e) => {
                if e == String::from_str("png") {
                    Some(RawIconType::Png(path))
                } else if e == String::from_str("svg") {
                    Some(RawIconType::Svg(path))
                } else if e == String::from_str("glb") {
                    Some(RawIconType::Gltf(path))
                } else if e == String::from_str("gltf") {
                    Some(RawIconType::Gltf(path))
                } else {
                    None
                }
            },
        }
    }
}

/// Spec-level image of a processing step.
#[verifier::ext_equal]
pub enum ProcessStepView {
    Ready(IconView),
    Rasterize { source: Seq<char>, target: Seq<char> },
}

/// What processing a raw candidate needs to become display-ready: nothing,
/// or rasterizing its vector source into the named target file.
#[derive(Debug, PartialEq, Eq)]
pub enum ProcessStep {
    Ready(Icon),
    Rasterize { source: String, target: String },
}

impl View for ProcessStep {
    type V = ProcessStepView;

    open spec fn view(&self) -> ProcessStepView {
        match self {
            ProcessStep::Ready(i) => ProcessStepView::Ready(i@),
            ProcessStep::Rasterize { source, target } => ProcessStepView::Rasterize {
                source: source@,
                target: target@,
            },
        }
    }
}

impl RawIconType {
    /// The processing decision for this candidate: raster and scene assets
    /// are ready as they stand; a vector image is to be rasterized into a
    /// file beside its source, extension replaced by `png`.
    pub fn process_step(self) -> (r: ProcessStep)
        ensures
            r@ == match self@ {
                RawIconView::Png(p) => ProcessStepView::Ready(IconView::Png(p)),
                RawIconView::Svg(p) => ProcessStepView::Rasterize {
                    source: p,
                    target: with_extension_of(p, "png"@),
                },
                RawIconView::Gltf(p) => ProcessStepView::Ready(IconView::Gltf(p)),
            },
    {
        match self {
            RawIconType::Png(p) => ProcessStep::Ready(Icon::Png(p)),
            RawIconType::Svg(p) => {
                let target = with_extension(p.as_str(), "png");
                ProcessStep::Rasterize { source: p, target }
            },
            RawIconType::Gltf(p) => ProcessStep::Ready(Icon::Gltf(p)),
        }
    }
}

} // verus!
