//! The Respawn variant of the format.

pub mod cam;
pub mod format;
pub mod package;

pub use cam::{
    create_wav_header, seek_to_wav_data, VPKRespawnCam, VPKRespawnCamEntry,
    RESPAWN_CAM_ENTRY_MAGIC,
};
pub use format::{
    EPackedLoadFlags, EPackedTextureFlags, VPKDirectoryEntryRespawn, VPKFilePartEntryRespawn,
    VPKHeaderRespawn, VPK_SIGNATURE_REVPK, VPK_VERSION_REVPK,
};
pub use package::{CompressedPart, VPKRespawn};
