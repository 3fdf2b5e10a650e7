//! Multi-tenant file storage core.
//!
//! Each tenant (a "hub") owns an isolated subtree of a shared upload root.
//! This crate holds the storage domain model: validated path types that can
//! never traverse outside a tenant root, a resolver from validated relative
//! paths to absolute path strings, the listing/creation/upload decisions of
//! the file service, and the error taxonomy those operations surface.
use vstd::prelude::*;

pub mod decimal;
pub mod domain;
pub mod dto;
pub mod forms;
pub mod models;
pub mod pathtext;
pub mod services;
pub mod textorder;

verus! {

use crate::pathtext::{has_parent_piece, is_dot_seg, is_parent_seg, norm_segs, pieces, render_segs};
use crate::pathtext::{filter_dots, find_parent, render_segments, seg_is_dot, seg_is_parent,
    split_pieces};
use crate::domain::{is_image_name, is_image_seg};

/// Role required for every file-storage operation.
pub const SERVICE_ACCESS_ROLE: &'static str = "crm";

/// Acceptance condition of `sanitize_file_name`: after leading separators
/// are dropped, the string reads as exactly one normal path component.
pub open spec fn sanitized_name_accepts(s: Seq<char>) -> bool {
    &&& pieces(s).len() > 0
    &&& !is_dot_seg(pieces(s)[0])
    &&& norm_segs(s).len() == 1
    &&& !is_parent_seg(norm_segs(s)[0])
}

/// The component a name string designates: the last normal segment, or
/// nothing when the string has no usable file part.
pub open spec fn file_part(s: Seq<char>) -> Seq<char> {
    if norm_segs(s).len() > 0 && !is_parent_seg(norm_segs(s).last()) {
        norm_segs(s).last()
    } else {
        seq![]
    }
}

/// Returns the canonical form of a storage path, or `None` if the path is
/// invalid (contains a parent-directory component).  Leading separators are
/// ignored.
pub fn sanitize_path(input: &str) -> (r: Option<String>)
    ensures
        r is Some <==> !has_parent_piece(input@),
        r matches Some(p) ==> p@ == render_segs(norm_segs(input@)),
{
    let ps = split_pieces(input);
    if find_parent(&ps) {
        return None;
    }
    let segs = filter_dots(ps);
    Some(render_segments(&segs))
}

/// Returns the canonical form of a file name, or `None` unless the string
/// is a single normal component: no separators, no parent-directory
/// component, and not the current-directory marker.
pub fn sanitize_file_name(input: &str) -> (r: Option<String>)
    ensures
        r is Some <==> sanitized_name_accepts(input@),
        r matches Some(p) ==> p@ == norm_segs(input@)[0],
{
    let ps = split_pieces(input);
    if ps.len() == 0 {
        return None;
    }
    if seg_is_dot(ps[0].as_str()) {
        return None;
    }
    let mut segs = filter_dots(ps);
    if segs.len() != 1 {
        return None;
    }
    if seg_is_parent(segs[0].as_str()) {
        return None;
    }
    segs.pop()
}

/// Returns `true` if the provided file name has a common image extension.
pub fn is_image_file(name: &str) -> (r: bool)
    ensures
        r == is_image_name(file_part(name@)),
{
    let ps = split_pieces(name);
    let segs = filter_dots(ps);
    if segs.len() == 0 {
        return false;
    }
    let last = &segs[segs.len() - 1];
    if seg_is_parent(last.as_str()) {
        return false;
    }
    is_image_seg(last.as_str())
}

} // verus!
