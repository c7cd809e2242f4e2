//! The type catalogue of protocol version 15405, with the places of its
//! top-level types and the tables of its events.

use vstd::prelude::*;

use crate::format::{refers_within, valid_catalogue, ChoiceArm, IntBounds, Struct, TypeInfo};

verus! {

/// Number of the protocol version.
pub const PROTOCOL_NUM: u32 = 15405;

/// Number of descriptors in the catalogue.
pub const TYPE_COUNT: usize = 131;

/// Type of the replay header.
pub const REPLAY_HEADER_TYPEID: usize = 13;

/// Type of the identifier of a game event.
pub const GAME_EVENTID_TYPEID: usize = 0;

/// Type of the identifier of a message event.
pub const MESSAGE_EVENTID_TYPEID: usize = 1;

/// Type of the game details.
pub const GAME_DETAILS_TYPEID: usize = 32;

/// Whether `typeinfos` holds the first `count` descriptors: none refers
/// to a type outside the whole catalogue, the identifiers of events are
/// integers, and the replay header and the game details are structs.
pub open spec fn filled(typeinfos: Seq<TypeInfo>, count: nat) -> bool {
    &&& typeinfos.len() == count
    &&& forall|i: int| 0 <= i < count ==> refers_within(#[trigger] typeinfos[i], TYPE_COUNT as nat)
    &&& count > GAME_EVENTID_TYPEID ==> typeinfos[GAME_EVENTID_TYPEID as int] is Int
    &&& count > MESSAGE_EVENTID_TYPEID ==> typeinfos[MESSAGE_EVENTID_TYPEID as int] is Int
    &&& count > REPLAY_HEADER_TYPEID ==> typeinfos[REPLAY_HEADER_TYPEID as int] is Struct
    &&& count > GAME_DETAILS_TYPEID ==> typeinfos[GAME_DETAILS_TYPEID as int] is Struct
}

/// Appends the descriptors 0 to 15.
fn types_0_to_15(typeinfos: &mut Vec<TypeInfo>)
    requires
        filled(old(typeinfos)@, 0),
    ensures
        filled(final(typeinfos)@, 16),
{
    // 0
    typeinfos.push(TypeInfo::Int { bounds: IntBounds { min: 0, bitlen: 7 } });
    // 1
    typeinfos.push(TypeInfo::Int { bounds: IntBounds { min: 0, bitlen: 4 } });
    // 2
    typeinfos.push(TypeInfo::Int { bounds: IntBounds { min: 0, bitlen: 6 } });
    // 3
    typeinfos.push(TypeInfo::Int { bounds: IntBounds { min: 0, bitlen: 14 } });
    // 4
    typeinfos.push(TypeInfo::Int { bounds: IntBounds { min: 0, bitlen: 22 } });
    // 5
    typeinfos.push(TypeInfo::Int { bounds: IntBounds { min: 0, bitlen: 32 } });
    // 6
    typeinfos.push(
        TypeInfo::Choice {
            bounds: IntBounds { min: 0, bitlen: 2 },
            types: vec![
                (0, "m_uint6", 2),
                (1, "m_uint14", 3),
                (2, "m_uint22", 4),
                (3, "m_uint32", 5),
            ],
        },
    );
    // 7
    typeinfos.push(TypeInfo::Int { bounds: IntBounds { min: 0, bitlen: 5 } });
    // 8
    typeinfos.push(
        TypeInfo::Struct(
            Struct {
                fields: vec![
                    ("m_playerId", 7, -1),
                ],
            },
        ),
    );
    // 9
    typeinfos.push(TypeInfo::Blob { len: IntBounds { min: 0, bitlen: 8 } });
    // 10
    typeinfos.push(TypeInfo::Int { bounds: IntBounds { min: 0, bitlen: 8 } });
    // 11
    typeinfos.push(
        TypeInfo::Struct(
            Struct {
                fields: vec![
                    ("m_flags", 10, 0),
                    ("m_major", 10, 1),
                    ("m_minor", 10, 2),
                    ("m_revision", 10, 3),
                    ("m_build", 5, 4),
                    ("m_baseBuild", 5, 5),
                ],
            },
        ),
    );
    // 12
    typeinfos.push(TypeInfo::Int { bounds: IntBounds { min: 0, bitlen: 3 } });
    // 13
    typeinfos.push(
        TypeInfo::Struct(
            Struct {
                fields: vec![
                    ("m_signature", 9, 0),
                    ("m_version", 11, 1),
                    ("m_type", 12, 2),
                    ("m_elapsedGameLoops", 5, 3),
                ],
            },
        ),
    );
    // 14
    typeinfos.push(TypeInfo::FourCC);
    // 15
    typeinfos.push(TypeInfo::Blob { len: IntBounds { min: 0, bitlen: 7 } });
}

/// Appends the descriptors 16 to 31.
fn types_16_to_31(typeinfos: &mut Vec<TypeInfo>)
    requires
        filled(old(typeinfos)@, 16),
    ensures
        filled(final(typeinfos)@, 32),
{
    // 16
    typeinfos.push(TypeInfo::Int { bounds: IntBounds { min: 0, bitlen: 64 } });
    // 17
    typeinfos.push(
        TypeInfo::Struct(
            Struct {
                fields: vec![
                    ("m_region", 10, 0),
                    ("m_programId", 14, 1),
                    ("m_realm", 5, 2),
                    ("m_name", 15, 3),
                    ("m_id", 16, 4),
                ],
            },
        ),
    );
    // 18
    typeinfos.push(
        TypeInfo::Struct(
            Struct {
                fields: vec![
                    ("m_a", 10, 0),
                    ("m_r", 10, 1),
                    ("m_g", 10, 2),
                    ("m_b", 10, 3),
                ],
            },
        ),
    );
    // 19
    typeinfos.push(TypeInfo::Int { bounds: IntBounds { min: 0, bitlen: 2 } });
    // 20
    typeinfos.push(
        TypeInfo::Struct(
            Struct {
                fields: vec![
                    ("m_name", 9, 0),
                    ("m_toon", 17, 1),
                    ("m_race", 9, 2),
                    ("m_color", 18, 3),
                    ("m_control", 10, 4),
                    ("m_teamId", 1, 5),
                    ("m_handicap", 0, 6),
                    ("m_observe", 19, 7),
                    ("m_result", 19, 8),
                ],
            },
        ),
    );
    // 21
    typeinfos.push(TypeInfo::Array { bounds: IntBounds { min: 0, bitlen: 5 }, typeid: 20 });
    // 22
    typeinfos.push(TypeInfo::Optional { typeid: 21 });
    // 23
    typeinfos.push(TypeInfo::Blob { len: IntBounds { min: 0, bitlen: 10 } });
    // 24
    typeinfos.push(TypeInfo::Blob { len: IntBounds { min: 0, bitlen: 11 } });
    // 25
    typeinfos.push(
        TypeInfo::Struct(
            Struct {
                fields: vec![
                    ("m_file", 24, 0),
                ],
            },
        ),
    );
    // 26
    typeinfos.push(TypeInfo::Bool);
    // 27
    typeinfos.push(TypeInfo::Int { bounds: IntBounds { min: -9223372036854775808, bitlen: 64 } });
    // 28
    typeinfos.push(TypeInfo::Blob { len: IntBounds { min: 0, bitlen: 12 } });
    // 29
    typeinfos.push(TypeInfo::Blob { len: IntBounds { min: 40, bitlen: 0 } });
    // 30
    typeinfos.push(TypeInfo::Array { bounds: IntBounds { min: 0, bitlen: 4 }, typeid: 29 });
    // 31
    typeinfos.push(TypeInfo::Optional { typeid: 30 });
}

/// Appends the descriptors 32 to 47.
fn types_32_to_47(typeinfos: &mut Vec<TypeInfo>)
    requires
        filled(old(typeinfos)@, 32),
    ensures
        filled(final(typeinfos)@, 48),
{
    // 32
    typeinfos.push(
        TypeInfo::Struct(
            Struct {
                fields: vec![
                    ("m_playerList", 22, 0),
                    ("m_title", 23, 1),
                    ("m_difficulty", 9, 2),
                    ("m_thumbnail", 25, 3),
                    ("m_isBlizzardMap", 26, 4),
                    ("m_timeUTC", 27, 5),
                    ("m_timeLocalOffset", 27, 6),
                    ("m_description", 28, 7),
                    ("m_imageFilePath", 24, 8),
                    ("m_mapFileName", 24, 9),
                    ("m_cacheHandles", 31, 10),
                    ("m_miniSave", 26, 11),
                    ("m_gameSpeed", 12, 12),
                    ("m_defaultDifficulty", 2, 13),
                ],
            },
        ),
    );
    // 33
    typeinfos.push(TypeInfo::Optional { typeid: 10 });
    // 34
    typeinfos.push(
        TypeInfo::Struct(
            Struct {
                fields: vec![
                    ("m_race", 33, -1),
                ],
            },
        ),
    );
    // 35
    typeinfos.push(
        TypeInfo::Struct(
            Struct {
                fields: vec![
                    ("m_name", 9, -6),
                    ("m_randomSeed", 5, -5),
                    ("m_racePreference", 34, -4),
                    ("m_testMap", 26, -3),
                    ("m_testAuto", 26, -2),
                    ("m_observe", 19, -1),
                ],
            },
        ),
    );
    // 36
    typeinfos.push(TypeInfo::Array { bounds: IntBounds { min: 0, bitlen: 5 }, typeid: 35 });
    // 37
    typeinfos.push(
        TypeInfo::Struct(
            Struct {
                fields: vec![
                    ("m_lockTeams", 26, -11),
                    ("m_teamsTogether", 26, -10),
                    ("m_advancedSharedControl", 26, -9),
                    ("m_randomRaces", 26, -8),
                    ("m_battleNet", 26, -7),
                    ("m_amm", 26, -6),
                    ("m_ranked", 26, -5),
                    ("m_noVictoryOrDefeat", 26, -4),
                    ("m_fog", 19, -3),
                    ("m_observers", 19, -2),
                    ("m_userDifficulty", 19, -1),
                ],
            },
        ),
    );
    // 38
    typeinfos.push(TypeInfo::Int { bounds: IntBounds { min: 1, bitlen: 4 } });
    // 39
    typeinfos.push(TypeInfo::Int { bounds: IntBounds { min: 1, bitlen: 5 } });
    // 40
    typeinfos.push(TypeInfo::Int { bounds: IntBounds { min: 1, bitlen: 8 } });
    // 41
    typeinfos.push(TypeInfo::BitArray { len: IntBounds { min: 0, bitlen: 6 } });
    // 42
    typeinfos.push(TypeInfo::BitArray { len: IntBounds { min: 0, bitlen: 8 } });
    // 43
    typeinfos.push(TypeInfo::BitArray { len: IntBounds { min: 0, bitlen: 2 } });
    // 44
    typeinfos.push(
        TypeInfo::Struct(
            Struct {
                fields: vec![
                    ("m_allowedColors", 41, -5),
                    ("m_allowedRaces", 42, -4),
                    ("m_allowedDifficulty", 41, -3),
                    ("m_allowedControls", 42, -2),
                    ("m_allowedObserveTypes", 43, -1),
                ],
            },
        ),
    );
    // 45
    typeinfos.push(TypeInfo::Array { bounds: IntBounds { min: 0, bitlen: 5 }, typeid: 44 });
    // 46
    typeinfos.push(
        TypeInfo::Struct(
            Struct {
                fields: vec![
                    ("m_randomValue", 5, -23),
                    ("m_gameCacheName", 23, -22),
                    ("m_gameOptions", 37, -21),
                    ("m_gameSpeed", 12, -20),
                    ("m_gameType", 12, -19),
                    ("m_maxUsers", 7, -18),
                    ("m_maxObservers", 7, -17),
                    ("m_maxPlayers", 7, -16),
                    ("m_maxTeams", 38, -15),
                    ("m_maxColors", 39, -14),
                    ("m_maxRaces", 40, -13),
                    ("m_maxControls", 40, -12),
                    ("m_mapSizeX", 10, -11),
                    ("m_mapSizeY", 10, -10),
                    ("m_mapFileSyncChecksum", 5, -9),
                    ("m_mapFileName", 24, -8),
                    ("m_mapAuthorName", 9, -7),
                    ("m_modFileSyncChecksum", 5, -6),
                    ("m_slotDescriptions", 45, -5),
                    ("m_defaultDifficulty", 2, -4),
                    ("m_cacheHandles", 30, -3),
                    ("m_isBlizzardMap", 26, -2),
                    ("m_isPremadeFFA", 26, -1),
                ],
            },
        ),
    );
    // 47
    typeinfos.push(TypeInfo::Optional { typeid: 1 });
}

/// Appends the descriptors 48 to 63.
fn types_48_to_63(typeinfos: &mut Vec<TypeInfo>)
    requires
        filled(old(typeinfos)@, 48),
    ensures
        filled(final(typeinfos)@, 64),
{
    // 48
    typeinfos.push(TypeInfo::Optional { typeid: 7 });
    // 49
    typeinfos.push(
        TypeInfo::Struct(
            Struct {
                fields: vec![
                    ("m_color", 48, -1),
                ],
            },
        ),
    );
    // 50
    typeinfos.push(TypeInfo::Array { bounds: IntBounds { min: 0, bitlen: 5 }, typeid: 5 });
    // 51
    typeinfos.push(
        TypeInfo::Struct(
            Struct {
                fields: vec![
                    ("m_control", 10, -9),
                    ("m_userId", 47, -8),
                    ("m_teamId", 1, -7),
                    ("m_colorPref", 49, -6),
                    ("m_racePref", 34, -5),
                    ("m_difficulty", 2, -4),
                    ("m_handicap", 0, -3),
                    ("m_observe", 19, -2),
                    ("m_rewards", 50, -1),
                ],
            },
        ),
    );
    // 52
    typeinfos.push(TypeInfo::Array { bounds: IntBounds { min: 0, bitlen: 5 }, typeid: 51 });
    // 53
    typeinfos.push(
        TypeInfo::Struct(
            Struct {
                fields: vec![
                    ("m_phase", 12, -9),
                    ("m_maxUsers", 7, -8),
                    ("m_maxObservers", 7, -7),
                    ("m_slots", 52, -6),
                    ("m_randomSeed", 5, -5),
                    ("m_hostUserId", 47, -4),
                    ("m_isSinglePlayer", 26, -3),
                    ("m_gameDuration", 5, -2),
                    ("m_defaultDifficulty", 2, -1),
                ],
            },
        ),
    );
    // 54
    typeinfos.push(
        TypeInfo::Struct(
            Struct {
                fields: vec![
                    ("m_userInitialData", 36, -3),
                    ("m_gameDescription", 46, -2),
                    ("m_lobbyState", 53, -1),
                ],
            },
        ),
    );
    // 55
    typeinfos.push(
        TypeInfo::Struct(
            Struct {
                fields: vec![
                    ("m_syncLobbyState", 54, -1),
                ],
            },
        ),
    );
    // 56
    typeinfos.push(
        TypeInfo::Struct(
            Struct {
                fields: vec![
                    ("m_name", 15, -1),
                ],
            },
        ),
    );
    // 57
    typeinfos.push(TypeInfo::Blob { len: IntBounds { min: 0, bitlen: 6 } });
    // 58
    typeinfos.push(
        TypeInfo::Struct(
            Struct {
                fields: vec![
                    ("m_name", 57, -1),
                ],
            },
        ),
    );
    // 59
    typeinfos.push(
        TypeInfo::Struct(
            Struct {
                fields: vec![
                    ("m_name", 57, -3),
                    ("m_type", 5, -2),
                    ("m_data", 15, -1),
                ],
            },
        ),
    );
    // 60
    typeinfos.push(
        TypeInfo::Struct(
            Struct {
                fields: vec![
                    ("m_type", 5, -3),
                    ("m_name", 57, -2),
                    ("m_data", 28, -1),
                ],
            },
        ),
    );
    // 61
    typeinfos.push(
        TypeInfo::Struct(
            Struct {
                fields: vec![
                    ("m_developmentCheatsEnabled", 26, -4),
                    ("m_multiplayerCheatsEnabled", 26, -3),
                    ("m_syncChecksummingEnabled", 26, -2),
                    ("m_isMapToMapTransition", 26, -1),
                ],
            },
        ),
    );
    // 62
    typeinfos.push(TypeInfo::Struct(Struct { fields: Vec::new() }));
    // 63
    typeinfos.push(
        TypeInfo::Struct(
            Struct {
                fields: vec![
                    ("m_fileName", 24, -5),
                    ("m_automatic", 26, -4),
                    ("m_overwrite", 26, -3),
                    ("m_name", 9, -2),
                    ("m_description", 23, -1),
                ],
            },
        ),
    );
}

/// Appends the descriptors 64 to 79.
fn types_64_to_79(typeinfos: &mut Vec<TypeInfo>)
    requires
        filled(old(typeinfos)@, 64),
    ensures
        filled(final(typeinfos)@, 80),
{
    // 64
    typeinfos.push(TypeInfo::Int { bounds: IntBounds { min: -2147483648, bitlen: 32 } });
    // 65
    typeinfos.push(
        TypeInfo::Struct(
            Struct {
                fields: vec![
                    ("x", 64, -2),
                    ("y", 64, -1),
                ],
            },
        ),
    );
    // 66
    typeinfos.push(
        TypeInfo::Struct(
            Struct {
                fields: vec![
                    ("m_point", 65, -4),
                    ("m_time", 64, -3),
                    ("m_verb", 23, -2),
                    ("m_arguments", 23, -1),
                ],
            },
        ),
    );
    // 67
    typeinfos.push(
        TypeInfo::Struct(
            Struct {
                fields: vec![
                    ("m_data", 66, -1),
                ],
            },
        ),
    );
    // 68
    typeinfos.push(TypeInfo::Int { bounds: IntBounds { min: 0, bitlen: 16 } });
    // 69
    typeinfos.push(
        TypeInfo::Struct(
            Struct {
                fields: vec![
                    ("x", 64, -3),
                    ("y", 64, -2),
                    ("z", 64, -1),
                ],
            },
        ),
    );
    // 70
    typeinfos.push(
        TypeInfo::Struct(
            Struct {
                fields: vec![
                    ("m_cmdFlags", 5, -11),
                    ("m_abilLink", 68, -10),
                    ("m_abilCmdIndex", 10, -9),
                    ("m_abilCmdData", 10, -8),
                    ("m_targetUnitFlags", 10, -7),
                    ("m_targetUnitTimer", 10, -6),
                    ("m_otherUnit", 5, -5),
                    ("m_targetUnitTag", 5, -4),
                    ("m_targetUnitSnapshotUnitLink", 68, -3),
                    ("m_targetUnitSnapshotPlayerId", 47, -2),
                    ("m_targetPoint", 69, -1),
                ],
            },
        ),
    );
    // 71
    typeinfos.push(
        TypeInfo::Struct(
            Struct {
                fields: vec![
                    ("__parent", 42, -1),
                ],
            },
        ),
    );
    // 72
    typeinfos.push(
        TypeInfo::Struct(
            Struct {
                fields: vec![
                    ("m_unitLink", 68, -3),
                    ("m_intraSubgroupPriority", 10, -2),
                    ("m_count", 10, -1),
                ],
            },
        ),
    );
    // 73
    typeinfos.push(TypeInfo::Array { bounds: IntBounds { min: 0, bitlen: 8 }, typeid: 72 });
    // 74
    typeinfos.push(TypeInfo::Array { bounds: IntBounds { min: 0, bitlen: 8 }, typeid: 5 });
    // 75
    typeinfos.push(
        TypeInfo::Struct(
            Struct {
                fields: vec![
                    ("m_subgroupIndex", 10, -4),
                    ("m_removeMask", 71, -3),
                    ("m_addSubgroups", 73, -2),
                    ("m_addUnitTags", 74, -1),
                ],
            },
        ),
    );
    // 76
    typeinfos.push(
        TypeInfo::Struct(
            Struct {
                fields: vec![
                    ("m_controlGroupId", 1, -2),
                    ("m_delta", 75, -1),
                ],
            },
        ),
    );
    // 77
    typeinfos.push(TypeInfo::Optional { typeid: 71 });
    // 78
    typeinfos.push(
        TypeInfo::Struct(
            Struct {
                fields: vec![
                    ("m_controlGroupIndex", 1, -3),
                    ("m_controlGroupUpdate", 19, -2),
                    ("m_mask", 77, -1),
                ],
            },
        ),
    );
    // 79
    typeinfos.push(
        TypeInfo::Struct(
            Struct {
                fields: vec![
                    ("m_count", 10, -6),
                    ("m_subgroupCount", 10, -5),
                    ("m_activeSubgroupIndex", 10, -4),
                    ("m_unitTagsChecksum", 5, -3),
                    ("m_subgroupIndicesChecksum", 5, -2),
                    ("m_subgroupsChecksum", 5, -1),
                ],
            },
        ),
    );
}

/// Appends the descriptors 80 to 95.
fn types_80_to_95(typeinfos: &mut Vec<TypeInfo>)
    requires
        filled(old(typeinfos)@, 80),
    ensures
        filled(final(typeinfos)@, 96),
{
    // 80
    typeinfos.push(
        TypeInfo::Struct(
            Struct {
                fields: vec![
                    ("m_controlGroupId", 1, -2),
                    ("m_selectionSyncData", 79, -1),
                ],
            },
        ),
    );
    // 81
    typeinfos.push(TypeInfo::Array { bounds: IntBounds { min: 0, bitlen: 3 }, typeid: 64 });
    // 82
    typeinfos.push(
        TypeInfo::Struct(
            Struct {
                fields: vec![
                    ("m_recipientId", 1, -2),
                    ("m_resources", 81, -1),
                ],
            },
        ),
    );
    // 83
    typeinfos.push(
        TypeInfo::Struct(
            Struct {
                fields: vec![
                    ("m_chatMessage", 23, -1),
                ],
            },
        ),
    );
    // 84
    typeinfos.push(TypeInfo::Int { bounds: IntBounds { min: -128, bitlen: 8 } });
    // 85
    typeinfos.push(
        TypeInfo::Struct(
            Struct {
                fields: vec![
                    ("m_beacon", 84, -7),
                    ("m_ally", 84, -6),
                    ("m_autocast", 84, -5),
                    ("m_targetUnitTag", 5, -4),
                    ("m_targetUnitSnapshotUnitLink", 68, -3),
                    ("m_targetUnitSnapshotPlayerId", 47, -2),
                    ("m_targetPoint", 69, -1),
                ],
            },
        ),
    );
    // 86
    typeinfos.push(
        TypeInfo::Struct(
            Struct {
                fields: vec![
                    ("m_speed", 12, -1),
                ],
            },
        ),
    );
    // 87
    typeinfos.push(
        TypeInfo::Struct(
            Struct {
                fields: vec![
                    ("m_delta", 84, -1),
                ],
            },
        ),
    );
    // 88
    typeinfos.push(
        TypeInfo::Struct(
            Struct {
                fields: vec![
                    ("m_verb", 23, -2),
                    ("m_arguments", 23, -1),
                ],
            },
        ),
    );
    // 89
    typeinfos.push(
        TypeInfo::Struct(
            Struct {
                fields: vec![
                    ("m_alliance", 5, -2),
                    ("m_control", 5, -1),
                ],
            },
        ),
    );
    // 90
    typeinfos.push(
        TypeInfo::Struct(
            Struct {
                fields: vec![
                    ("m_unitTag", 5, -1),
                ],
            },
        ),
    );
    // 91
    typeinfos.push(
        TypeInfo::Struct(
            Struct {
                fields: vec![
                    ("m_unitTag", 5, -2),
                    ("m_flags", 10, -1),
                ],
            },
        ),
    );
    // 92
    typeinfos.push(
        TypeInfo::Struct(
            Struct {
                fields: vec![
                    ("m_conversationId", 64, -2),
                    ("m_replyId", 64, -1),
                ],
            },
        ),
    );
    // 93
    typeinfos.push(
        TypeInfo::Struct(
            Struct {
                fields: vec![
                    ("m_purchaseItemId", 64, -1),
                ],
            },
        ),
    );
    // 94
    typeinfos.push(
        TypeInfo::Struct(
            Struct {
                fields: vec![
                    ("m_difficultyLevel", 64, -1),
                ],
            },
        ),
    );
    // 95
    typeinfos.push(TypeInfo::Null);
}

/// Appends the descriptors 96 to 111.
fn types_96_to_111(typeinfos: &mut Vec<TypeInfo>)
    requires
        filled(old(typeinfos)@, 96),
    ensures
        filled(final(typeinfos)@, 112),
{
    // 96
    typeinfos.push(
        TypeInfo::Choice {
            bounds: IntBounds { min: 0, bitlen: 3 },
            types: vec![
                (0, "None", 95),
                (1, "Checked", 26),
                (2, "ValueChanged", 5),
                (3, "SelectionChanged", 64),
                (4, "TextChanged", 24),
            ],
        },
    );
    // 97
    typeinfos.push(
        TypeInfo::Struct(
            Struct {
                fields: vec![
                    ("m_controlId", 64, -3),
                    ("m_eventType", 64, -2),
                    ("m_eventData", 96, -1),
                ],
            },
        ),
    );
    // 98
    typeinfos.push(
        TypeInfo::Struct(
            Struct {
                fields: vec![
                    ("m_soundHash", 5, -2),
                    ("m_length", 5, -1),
                ],
            },
        ),
    );
    // 99
    typeinfos.push(
        TypeInfo::Struct(
            Struct {
                fields: vec![
                    ("m_soundHash", 74, -2),
                    ("m_length", 74, -1),
                ],
            },
        ),
    );
    // 100
    typeinfos.push(
        TypeInfo::Struct(
            Struct {
                fields: vec![
                    ("m_syncInfo", 99, -1),
                ],
            },
        ),
    );
    // 101
    typeinfos.push(
        TypeInfo::Struct(
            Struct {
                fields: vec![
                    ("m_sound", 5, -1),
                ],
            },
        ),
    );
    // 102
    typeinfos.push(
        TypeInfo::Struct(
            Struct {
                fields: vec![
                    ("m_transmissionId", 64, -1),
                ],
            },
        ),
    );
    // 103
    typeinfos.push(
        TypeInfo::Struct(
            Struct {
                fields: vec![
                    ("x", 68, -2),
                    ("y", 68, -1),
                ],
            },
        ),
    );
    // 104
    typeinfos.push(TypeInfo::Optional { typeid: 68 });
    // 105
    typeinfos.push(
        TypeInfo::Struct(
            Struct {
                fields: vec![
                    ("m_target", 103, -4),
                    ("m_distance", 104, -3),
                    ("m_pitch", 104, -2),
                    ("m_yaw", 104, -1),
                ],
            },
        ),
    );
    // 106
    typeinfos.push(TypeInfo::Int { bounds: IntBounds { min: 0, bitlen: 1 } });
    // 107
    typeinfos.push(
        TypeInfo::Struct(
            Struct {
                fields: vec![
                    ("m_skipType", 106, -1),
                ],
            },
        ),
    );
    // 108
    typeinfos.push(
        TypeInfo::Struct(
            Struct {
                fields: vec![
                    ("m_button", 5, -7),
                    ("m_down", 26, -6),
                    ("m_posXUI", 5, -5),
                    ("m_posYUI", 5, -4),
                    ("m_posXWorld", 64, -3),
                    ("m_posYWorld", 64, -2),
                    ("m_posZWorld", 64, -1),
                ],
            },
        ),
    );
    // 109
    typeinfos.push(
        TypeInfo::Struct(
            Struct {
                fields: vec![
                    ("m_soundtrack", 5, -1),
                ],
            },
        ),
    );
    // 110
    typeinfos.push(
        TypeInfo::Struct(
            Struct {
                fields: vec![
                    ("m_planetId", 64, -1),
                ],
            },
        ),
    );
    // 111
    typeinfos.push(
        TypeInfo::Struct(
            Struct {
                fields: vec![
                    ("m_key", 84, -2),
                    ("m_flags", 84, -1),
                ],
            },
        ),
    );
}

/// Appends the descriptors 112 to 127.
fn types_112_to_127(typeinfos: &mut Vec<TypeInfo>)
    requires
        filled(old(typeinfos)@, 112),
    ensures
        filled(final(typeinfos)@, 128),
{
    // 112
    typeinfos.push(
        TypeInfo::Struct(
            Struct {
                fields: vec![
                    ("m_resources", 81, -1),
                ],
            },
        ),
    );
    // 113
    typeinfos.push(
        TypeInfo::Struct(
            Struct {
                fields: vec![
                    ("m_fulfillRequestId", 64, -1),
                ],
            },
        ),
    );
    // 114
    typeinfos.push(
        TypeInfo::Struct(
            Struct {
                fields: vec![
                    ("m_cancelRequestId", 64, -1),
                ],
            },
        ),
    );
    // 115
    typeinfos.push(
        TypeInfo::Struct(
            Struct {
                fields: vec![
                    ("m_researchItemId", 64, -1),
                ],
            },
        ),
    );
    // 116
    typeinfos.push(
        TypeInfo::Struct(
            Struct {
                fields: vec![
                    ("m_laggingPlayerId", 1, -1),
                ],
            },
        ),
    );
    // 117
    typeinfos.push(
        TypeInfo::Struct(
            Struct {
                fields: vec![
                    ("m_mercenaryId", 64, -1),
                ],
            },
        ),
    );
    // 118
    typeinfos.push(
        TypeInfo::Struct(
            Struct {
                fields: vec![
                    ("m_battleReportId", 64, -2),
                    ("m_difficultyLevel", 64, -1),
                ],
            },
        ),
    );
    // 119
    typeinfos.push(
        TypeInfo::Struct(
            Struct {
                fields: vec![
                    ("m_battleReportId", 64, -1),
                ],
            },
        ),
    );
    // 120
    typeinfos.push(
        TypeInfo::Struct(
            Struct {
                fields: vec![
                    ("m_decrementMs", 5, -1),
                ],
            },
        ),
    );
    // 121
    typeinfos.push(
        TypeInfo::Struct(
            Struct {
                fields: vec![
                    ("m_portraitId", 64, -1),
                ],
            },
        ),
    );
    // 122
    typeinfos.push(
        TypeInfo::Struct(
            Struct {
                fields: vec![
                    ("m_functionName", 15, -1),
                ],
            },
        ),
    );
    // 123
    typeinfos.push(
        TypeInfo::Struct(
            Struct {
                fields: vec![
                    ("m_result", 64, -1),
                ],
            },
        ),
    );
    // 124
    typeinfos.push(
        TypeInfo::Struct(
            Struct {
                fields: vec![
                    ("m_gameMenuItemIndex", 64, -1),
                ],
            },
        ),
    );
    // 125
    typeinfos.push(
        TypeInfo::Struct(
            Struct {
                fields: vec![
                    ("m_reason", 84, -1),
                ],
            },
        ),
    );
    // 126
    typeinfos.push(
        TypeInfo::Struct(
            Struct {
                fields: vec![
                    ("m_purchaseCategoryId", 64, -1),
                ],
            },
        ),
    );
    // 127
    typeinfos.push(
        TypeInfo::Struct(
            Struct {
                fields: vec![
                    ("m_button", 68, -1),
                ],
            },
        ),
    );
}

/// Appends the descriptors 128 to 130.
fn types_128_to_130(typeinfos: &mut Vec<TypeInfo>)
    requires
        filled(old(typeinfos)@, 128),
    ensures
        filled(final(typeinfos)@, 131),
{
    // 128
    typeinfos.push(
        TypeInfo::Struct(
            Struct {
                fields: vec![
                    ("m_recipient", 19, -2),
                    ("m_string", 24, -1),
                ],
            },
        ),
    );
    // 129
    typeinfos.push(
        TypeInfo::Struct(
            Struct {
                fields: vec![
                    ("m_recipient", 19, -2),
                    ("m_point", 65, -1),
                ],
            },
        ),
    );
    // 130
    typeinfos.push(
        TypeInfo::Struct(
            Struct {
                fields: vec![
                    ("m_progress", 64, -1),
                ],
            },
        ),
    );
}

/// The catalogue: 131 descriptors, each known by its index. It is valid, and
/// the top-level types lie where the constants of this file say.
pub fn typeinfos() -> (typeinfos: Vec<TypeInfo>)
    ensures
        typeinfos@.len() == TYPE_COUNT,
        valid_catalogue(typeinfos@),
        typeinfos@[GAME_EVENTID_TYPEID as int] is Int,
        typeinfos@[MESSAGE_EVENTID_TYPEID as int] is Int,
        typeinfos@[REPLAY_HEADER_TYPEID as int] is Struct,
        typeinfos@[GAME_DETAILS_TYPEID as int] is Struct,
{
    let mut typeinfos: Vec<TypeInfo> = Vec::new();
    types_0_to_15(&mut typeinfos);
    types_16_to_31(&mut typeinfos);
    types_32_to_47(&mut typeinfos);
    types_48_to_63(&mut typeinfos);
    types_64_to_79(&mut typeinfos);
    types_80_to_95(&mut typeinfos);
    types_96_to_111(&mut typeinfos);
    types_112_to_127(&mut typeinfos);
    types_128_to_130(&mut typeinfos);
    typeinfos
}

/// The game events. Each entry has the shape of a choice's arm: the
/// identifier of the event, its name, and the type of its body.
pub fn game_event_types() -> (events: Vec<ChoiceArm>)
    ensures
        events@.len() == 73,
        forall|j: int| 0 <= j < events@.len() ==> (#[trigger] events@[j]).2 < TYPE_COUNT,
{
    vec![
        (5, "NNet.Game.SUserFinishedLoadingSyncEvent", 62),
        (7, "NNet.Game.SBankFileEvent", 56),
        (8, "NNet.Game.SBankSectionEvent", 58),
        (9, "NNet.Game.SBankKeyEvent", 59),
        (10, "NNet.Game.SBankValueEvent", 60),
        (11, "NNet.Game.SUserOptionsEvent", 61),
        (22, "NNet.Game.SSaveGameEvent", 63),
        (23, "NNet.Game.SSaveGameDoneEvent", 62),
        (25, "NNet.Game.SPlayerLeaveEvent", 62),
        (26, "NNet.Game.SGameCheatEvent", 67),
        (27, "NNet.Game.SCmdEvent", 70),
        (28, "NNet.Game.SSelectionDeltaEvent", 76),
        (29, "NNet.Game.SControlGroupUpdateEvent", 78),
        (30, "NNet.Game.SSelectionSyncCheckEvent", 80),
        (31, "NNet.Game.SResourceTradeEvent", 82),
        (32, "NNet.Game.STriggerChatMessageEvent", 83),
        (33, "NNet.Game.SAICommunicateEvent", 85),
        (34, "NNet.Game.SSetAbsoluteGameSpeedEvent", 86),
        (35, "NNet.Game.SAddAbsoluteGameSpeedEvent", 87),
        (37, "NNet.Game.SBroadcastCheatEvent", 88),
        (38, "NNet.Game.SAllianceEvent", 89),
        (39, "NNet.Game.SUnitClickEvent", 90),
        (40, "NNet.Game.SUnitHighlightEvent", 91),
        (41, "NNet.Game.STriggerReplySelectedEvent", 92),
        (44, "NNet.Game.STriggerSkippedEvent", 62),
        (45, "NNet.Game.STriggerSoundLengthQueryEvent", 98),
        (46, "NNet.Game.STriggerSoundOffsetEvent", 101),
        (47, "NNet.Game.STriggerTransmissionOffsetEvent", 102),
        (48, "NNet.Game.STriggerTransmissionCompleteEvent", 102),
        (49, "NNet.Game.SCameraUpdateEvent", 105),
        (50, "NNet.Game.STriggerAbortMissionEvent", 62),
        (51, "NNet.Game.STriggerPurchaseMadeEvent", 93),
        (52, "NNet.Game.STriggerPurchaseExitEvent", 62),
        (53, "NNet.Game.STriggerPlanetMissionLaunchedEvent", 94),
        (54, "NNet.Game.STriggerPlanetPanelCanceledEvent", 62),
        (55, "NNet.Game.STriggerDialogControlEvent", 97),
        (56, "NNet.Game.STriggerSoundLengthSyncEvent", 100),
        (57, "NNet.Game.STriggerConversationSkippedEvent", 107),
        (58, "NNet.Game.STriggerMouseClickedEvent", 108),
        (63, "NNet.Game.STriggerPlanetPanelReplayEvent", 62),
        (64, "NNet.Game.STriggerSoundtrackDoneEvent", 109),
        (65, "NNet.Game.STriggerPlanetMissionSelectedEvent", 110),
        (66, "NNet.Game.STriggerKeyPressedEvent", 111),
        (67, "NNet.Game.STriggerMovieFunctionEvent", 122),
        (68, "NNet.Game.STriggerPlanetPanelBirthCompleteEvent", 62),
        (69, "NNet.Game.STriggerPlanetPanelDeathCompleteEvent", 62),
        (70, "NNet.Game.SResourceRequestEvent", 112),
        (71, "NNet.Game.SResourceRequestFulfillEvent", 113),
        (72, "NNet.Game.SResourceRequestCancelEvent", 114),
        (73, "NNet.Game.STriggerResearchPanelExitEvent", 62),
        (74, "NNet.Game.STriggerResearchPanelPurchaseEvent", 62),
        (75, "NNet.Game.STriggerResearchPanelSelectionChangedEvent", 115),
        (76, "NNet.Game.SLagMessageEvent", 116),
        (77, "NNet.Game.STriggerMercenaryPanelExitEvent", 62),
        (78, "NNet.Game.STriggerMercenaryPanelPurchaseEvent", 62),
        (79, "NNet.Game.STriggerMercenaryPanelSelectionChangedEvent", 117),
        (80, "NNet.Game.STriggerVictoryPanelExitEvent", 62),
        (81, "NNet.Game.STriggerBattleReportPanelExitEvent", 62),
        (82, "NNet.Game.STriggerBattleReportPanelPlayMissionEvent", 118),
        (83, "NNet.Game.STriggerBattleReportPanelPlaySceneEvent", 119),
        (84, "NNet.Game.STriggerBattleReportPanelSelectionChangedEvent", 119),
        (85, "NNet.Game.STriggerVictoryPanelPlayMissionAgainEvent", 94),
        (86, "NNet.Game.STriggerMovieStartedEvent", 62),
        (87, "NNet.Game.STriggerMovieFinishedEvent", 62),
        (88, "NNet.Game.SDecrementGameTimeRemainingEvent", 120),
        (89, "NNet.Game.STriggerPortraitLoadedEvent", 121),
        (90, "NNet.Game.STriggerCustomDialogDismissedEvent", 123),
        (91, "NNet.Game.STriggerGameMenuItemSelectedEvent", 124),
        (92, "NNet.Game.STriggerCameraMoveEvent", 125),
        (93, "NNet.Game.STriggerPurchasePanelSelectedPurchaseItemChangedEvent", 93),
        (94, "NNet.Game.STriggerPurchasePanelSelectedPurchaseCategoryChangedEvent", 126),
        (95, "NNet.Game.STriggerButtonPressedEvent", 127),
        (96, "NNet.Game.STriggerGameCreditsFinishedEvent", 62),
    ]
}

/// The message events. Each entry has the shape of a choice's arm: the
/// identifier of the event, its name, and the type of its body.
pub fn message_event_types() -> (events: Vec<ChoiceArm>)
    ensures
        events@.len() == 4,
        forall|j: int| 0 <= j < events@.len() ==> (#[trigger] events@[j]).2 < TYPE_COUNT,
{
    vec![
        (0, "NNet.Game.SChatMessage", 128),
        (1, "NNet.Game.SPingMessage", 129),
        (2, "NNet.Game.SLoadingProgressMessage", 130),
        (3, "NNet.Game.SServerPingMessage", 62),
    ]
}

} // verus!
