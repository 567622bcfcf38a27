//! The four-character tags of the format, as the little-endian 32-bit values
//! that their ASCII bytes spell.

use vstd::prelude::*;

verus! {

/// `MDLX`, the magic tag at the start of a file.
pub const MDLX_TAG: u32 = 1481393229;

/// `VERS`, the format version.
pub const VERS_TAG: u32 = 1397900630;

/// `MODL`, the model header.
pub const MODL_TAG: u32 = 1279545165;

/// `SEQS`, the sequences.
pub const SEQS_TAG: u32 = 1397835091;

/// `GLBS`, the global sequences.
pub const GLBS_TAG: u32 = 1396853831;

/// `TEXS`, the textures.
pub const TEXS_TAG: u32 = 1398293844;

/// `TXAN`, the texture animations.
pub const TXAN_TAG: u32 = 1312905300;

/// `GEOS`, the geosets.
pub const GEOS_TAG: u32 = 1397704007;

/// `GEOA`, the geoset animations.
pub const GEOA_TAG: u32 = 1095714119;

/// `BONE`, the bones.
pub const BONE_TAG: u32 = 1162760002;

/// `MTLS`, the materials.
pub const MTLS_TAG: u32 = 1397511245;

/// `LITE`, the lights.
pub const LITE_TAG: u32 = 1163151692;

/// `HELP`, the helpers.
pub const HELP_TAG: u32 = 1347175752;

/// `ATCH`, the attachments.
pub const ATCH_TAG: u32 = 1212372033;

/// `PIVT`, the pivot points.
pub const PIVT_TAG: u32 = 1414941008;

/// `PREM`, the particle emitters.
pub const PREM_TAG: u32 = 1296388688;

/// `PRE2`, the particle emitters of the second kind.
pub const PRE2_TAG: u32 = 843403856;

/// `RIBB`, the ribbon emitters.
pub const RIBB_TAG: u32 = 1111640402;

/// `EVTS`, the event objects.
pub const EVTS_TAG: u32 = 1398036037;

/// `CAMS`, the cameras.
pub const CAMS_TAG: u32 = 1397571907;

/// `CLID`, the collision shapes.
pub const CLID_TAG: u32 = 1145654339;

/// `KTAT`, the translation of a texture animation.
pub const KTAT_TAG: u32 = 1413567563;

/// `KTAR`, the rotation of a texture animation.
pub const KTAR_TAG: u32 = 1380013131;

/// `KTAS`, the scaling of a texture animation.
pub const KTAS_TAG: u32 = 1396790347;

/// `KGTR`, the translation of a node.
pub const KGTR_TAG: u32 = 1381254987;

/// `KGRT`, the rotation of a node.
pub const KGRT_TAG: u32 = 1414678347;

/// `KGSC`, the scaling of a node.
pub const KGSC_TAG: u32 = 1129531211;

/// `KGAO`, the alpha of a geoset animation.
pub const KGAO_TAG: u32 = 1329678155;

/// `KGAC`, the color of a geoset animation.
pub const KGAC_TAG: u32 = 1128351563;

} // verus!
