//! What an archive says about itself as a whole.

use crate::spanning::zone::DataZone;
use crate::tar::header::TarFileType;
use crate::tar::path::{normal_parts, normalize, same_path, PathPart};
use crate::tar::recovery::RecoveryEntry;
use vstd::prelude::*;

verus! {

/// What a volume says about itself, and about the file that it takes up
/// again from the volume before it.
#[derive(Debug)]
pub struct TarLabel {
    pub label: Option<String>,
    /// A number that tells this run of the archiver from others.
    pub nabla: u32,
    pub volume_identifier: Option<usize>,
    pub recovery_path: Option<Vec<PathPart>>,
    pub recovery_file_type: Option<TarFileType>,
    pub recovery_remaining_size: Option<u64>,
    pub recovery_seek_offset: Option<u64>,
}

impl TarLabel {
    /// A label that names nothing, for the run with the number `nabla`.
    pub fn new(nabla: u32) -> (label: TarLabel)
        ensures
            label.nabla == nabla,
            label.label.is_none(),
            label.volume_identifier.is_none(),
            label.recovery_path.is_none(),
            label.recovery_file_type.is_none(),
            label.recovery_remaining_size.is_none(),
            label.recovery_seek_offset.is_none(),
    {
        TarLabel {
            label: None,
            nabla,
            volume_identifier: None,
            recovery_path: None,
            recovery_file_type: None,
            recovery_remaining_size: None,
            recovery_seek_offset: None,
        }
    }

    /// The label of a volume that takes up the file of `zone`, a file of the
    /// kind `file_type` that is now `file_len` bytes long.
    ///
    /// What was committed of the zone beyond its header is safe. The label
    /// tells where the file goes on, which is no further than its end, and
    /// how much of it is left. A slack zone leaves the label empty.
    pub fn with_recovery(
        zone: &DataZone<RecoveryEntry>,
        nabla: u32,
        file_type: TarFileType,
        file_len: u64,
    ) -> (label: TarLabel)
        ensures
            label.nabla == nabla,
            label.label.is_none(),
            label.volume_identifier.is_none(),
            match zone.ident {
                Some(ident) => {
                    let beyond = if zone.committed_length >= ident.header_length {
                        zone.committed_length - ident.header_length
                    } else {
                        0
                    };
                    &&& label.recovery_path matches Some(path) && same_path(
                        path@,
                        normal_parts(ident.original_path@),
                    )
                    &&& label.recovery_file_type == Some(file_type)
                    &&& label.recovery_remaining_size == Some(
                        if beyond <= file_len {
                            (file_len - beyond) as u64
                        } else {
                            0u64
                        },
                    )
                    &&& label.recovery_seek_offset == Some(
                        if beyond <= file_len {
                            beyond as u64
                        } else {
                            file_len
                        },
                    )
                },
                None => {
                    &&& label.recovery_path.is_none()
                    &&& label.recovery_file_type.is_none()
                    &&& label.recovery_remaining_size.is_none()
                    &&& label.recovery_seek_offset.is_none()
                },
            },
    {
        let mut label = TarLabel::new(nabla);
        match &zone.ident {
            Some(ident) => {
                let offset: u64 = if zone.committed_length >= ident.header_length {
                    zone.committed_length - ident.header_length
                } else {
                    0
                };
                label.recovery_path = Some(normalize(ident.original_path.as_slice()));
                label.recovery_file_type = Some(file_type);
                label.recovery_remaining_size = Some(
                    if offset <= file_len {
                        file_len - offset
                    } else {
                        0
                    },
                );
                label.recovery_seek_offset = Some(
                    if offset <= file_len {
                        offset
                    } else {
                        file_len
                    },
                );
            },
            None => {},
        }
        label
    }
}

} // verus!
