//! The vehicle-criteria subtree: one leaf per measurement of a vehicle record.

use vstd::prelude::*;

use crate::oid::field::{
    field_bytes, fits, ints, lemma_field_bytes_of_parse, parse_field, read_field, write_field,
    writable, Width,
};
use crate::value::AsnError;

verus! {

/// A vehicle-criteria leaf with the value it holds in one record.
#[derive(Clone, Debug, PartialEq, Eq)]
pub enum VehCriteria {
    Unknown,
    VCTMaxNumRows(i32),
    VCTCurNumRows(i32),
    VehCriteriaTable,
    AxleNumber(u8),
    NumAxles(u8),
    VehicleClass(u8),
    VehicleSpeed(u16),
    VehicleLength(u16),
    FrontOverhang(u16),
    RearOverhang(u16),
    AxleSpacing(Vec<u16>),
    VehWheelbase(u16),
    VehClearance(u8),
    VehicleHeight(u16),
    AxleWidth(Vec<u16>),
    VehicleWidth(u16),
    AxleTireCount(Vec<u8>),
    AxleTireTrack(Vec<u16>),
    VehicleGap(u32),
    VehicleHeadway(u32),
    LeftWheelWeigh(Vec<u16>),
    RightWheelWeight(Vec<u16>),
    AxleWeight(Vec<u16>),
    SensorWeight(Vec<u16>),
    GrossVehicleWeight(u32),
    VehicleSeqNum(u16),
    VehicleStatusFlag(u32),
    AxleWeightViolationCode(Vec<u32>),
    VehicleAcceleration(i16),
    NumVehicleIDs(u8),
    VehicleID,
    VehicleTimeTag1000(u16),
    NotHere(u8),
}

/// The leaf arc of each vehicle-criteria leaf (the lane leaf, which stands in the
/// site-setup subtree, is given 33); 0 for an unknown one.
pub open spec fn veh_arc(v: VehCriteria) -> int {
    match v {
        VehCriteria::Unknown => 0,
        VehCriteria::VCTMaxNumRows(_) => 1,
        VehCriteria::VCTCurNumRows(_) => 2,
        VehCriteria::VehCriteriaTable => 3,
        VehCriteria::AxleNumber(_) => 4,
        VehCriteria::NumAxles(_) => 5,
        VehCriteria::VehicleClass(_) => 6,
        VehCriteria::VehicleSpeed(_) => 7,
        VehCriteria::VehicleLength(_) => 8,
        VehCriteria::FrontOverhang(_) => 9,
        VehCriteria::RearOverhang(_) => 10,
        VehCriteria::AxleSpacing(_) => 11,
        VehCriteria::VehWheelbase(_) => 12,
        VehCriteria::VehClearance(_) => 13,
        VehCriteria::VehicleHeight(_) => 14,
        VehCriteria::AxleWidth(_) => 15,
        VehCriteria::VehicleWidth(_) => 16,
        VehCriteria::AxleTireCount(_) => 17,
        VehCriteria::AxleTireTrack(_) => 18,
        VehCriteria::VehicleGap(_) => 19,
        VehCriteria::VehicleHeadway(_) => 20,
        VehCriteria::LeftWheelWeigh(_) => 21,
        VehCriteria::RightWheelWeight(_) => 22,
        VehCriteria::AxleWeight(_) => 23,
        VehCriteria::SensorWeight(_) => 24,
        VehCriteria::GrossVehicleWeight(_) => 25,
        VehCriteria::VehicleSeqNum(_) => 26,
        VehCriteria::VehicleStatusFlag(_) => 27,
        VehCriteria::AxleWeightViolationCode(_) => 28,
        VehCriteria::VehicleAcceleration(_) => 29,
        VehCriteria::NumVehicleIDs(_) => 30,
        VehCriteria::VehicleID => 31,
        VehCriteria::VehicleTimeTag1000(_) => 32,
        VehCriteria::NotHere(_) => 33,
    }
}

/// The byte layout of each leaf in a record.
pub open spec fn veh_width(v: VehCriteria) -> Width {
    match v {
        VehCriteria::Unknown => Width::Unsized,
        VehCriteria::VCTMaxNumRows(_) => Width::Signed(4),
        VehCriteria::VCTCurNumRows(_) => Width::Signed(4),
        VehCriteria::VehCriteriaTable => Width::Unsized,
        VehCriteria::AxleNumber(_) => Width::Fixed(1),
        VehCriteria::NumAxles(_) => Width::Fixed(1),
        VehCriteria::VehicleClass(_) => Width::Fixed(1),
        VehCriteria::VehicleSpeed(_) => Width::Fixed(2),
        VehCriteria::VehicleLength(_) => Width::Fixed(2),
        VehCriteria::FrontOverhang(_) => Width::Fixed(2),
        VehCriteria::RearOverhang(_) => Width::Fixed(2),
        VehCriteria::AxleSpacing(_) => Width::Counted(2),
        VehCriteria::VehWheelbase(_) => Width::Fixed(2),
        VehCriteria::VehClearance(_) => Width::Fixed(1),
        VehCriteria::VehicleHeight(_) => Width::Fixed(2),
        VehCriteria::AxleWidth(_) => Width::Counted(2),
        VehCriteria::VehicleWidth(_) => Width::Fixed(2),
        VehCriteria::AxleTireCount(_) => Width::Counted(1),
        VehCriteria::AxleTireTrack(_) => Width::Counted(2),
        VehCriteria::VehicleGap(_) => Width::Fixed(3),
        VehCriteria::VehicleHeadway(_) => Width::Fixed(3),
        VehCriteria::LeftWheelWeigh(_) => Width::Counted(2),
        VehCriteria::RightWheelWeight(_) => Width::Counted(2),
        VehCriteria::AxleWeight(_) => Width::Counted(2),
        VehCriteria::SensorWeight(_) => Width::Counted(2),
        VehCriteria::GrossVehicleWeight(_) => Width::Fixed(3),
        VehCriteria::VehicleSeqNum(_) => Width::Fixed(2),
        VehCriteria::VehicleStatusFlag(_) => Width::Fixed(4),
        VehCriteria::AxleWeightViolationCode(_) => Width::Counted(3),
        VehCriteria::VehicleAcceleration(_) => Width::Signed(2),
        VehCriteria::NumVehicleIDs(_) => Width::Fixed(1),
        VehCriteria::VehicleID => Width::Unsized,
        VehCriteria::VehicleTimeTag1000(_) => Width::Fixed(2),
        VehCriteria::NotHere(_) => Width::Fixed(1),
    }
}

/// The numbers a leaf holds: one for a single number, the list for a
/// counted one, none for a leaf without bytes.
pub open spec fn veh_values(v: VehCriteria) -> Seq<int> {
    match v {
        VehCriteria::Unknown => Seq::empty(),
        VehCriteria::VCTMaxNumRows(x) => seq![x as int],
        VehCriteria::VCTCurNumRows(x) => seq![x as int],
        VehCriteria::VehCriteriaTable => Seq::empty(),
        VehCriteria::AxleNumber(x) => seq![x as int],
        VehCriteria::NumAxles(x) => seq![x as int],
        VehCriteria::VehicleClass(x) => seq![x as int],
        VehCriteria::VehicleSpeed(x) => seq![x as int],
        VehCriteria::VehicleLength(x) => seq![x as int],
        VehCriteria::FrontOverhang(x) => seq![x as int],
        VehCriteria::RearOverhang(x) => seq![x as int],
        VehCriteria::AxleSpacing(x) => x@.map_values(|e| e as int),
        VehCriteria::VehWheelbase(x) => seq![x as int],
        VehCriteria::VehClearance(x) => seq![x as int],
        VehCriteria::VehicleHeight(x) => seq![x as int],
        VehCriteria::AxleWidth(x) => x@.map_values(|e| e as int),
        VehCriteria::VehicleWidth(x) => seq![x as int],
        VehCriteria::AxleTireCount(x) => x@.map_values(|e| e as int),
        VehCriteria::AxleTireTrack(x) => x@.map_values(|e| e as int),
        VehCriteria::VehicleGap(x) => seq![x as int],
        VehCriteria::VehicleHeadway(x) => seq![x as int],
        VehCriteria::LeftWheelWeigh(x) => x@.map_values(|e| e as int),
        VehCriteria::RightWheelWeight(x) => x@.map_values(|e| e as int),
        VehCriteria::AxleWeight(x) => x@.map_values(|e| e as int),
        VehCriteria::SensorWeight(x) => x@.map_values(|e| e as int),
        VehCriteria::GrossVehicleWeight(x) => seq![x as int],
        VehCriteria::VehicleSeqNum(x) => seq![x as int],
        VehCriteria::VehicleStatusFlag(x) => seq![x as int],
        VehCriteria::AxleWeightViolationCode(x) => x@.map_values(|e| e as int),
        VehCriteria::VehicleAcceleration(x) => seq![x as int],
        VehCriteria::NumVehicleIDs(x) => seq![x as int],
        VehCriteria::VehicleID => Seq::empty(),
        VehCriteria::VehicleTimeTag1000(x) => seq![x as int],
        VehCriteria::NotHere(x) => seq![x as int],
    }
}

/// The path of a leaf under the module's subtree: the subtree arc, then the
/// leaf arc (the lane leaf sits under site setup).
pub open spec fn veh_path(v: VehCriteria) -> Seq<int> {
    match v {
        VehCriteria::NotHere(_) => seq![0, 4, 9, 1, 1],
        _ => seq![0, 1, veh_arc(v)],
    }
}

/// The display name of each leaf.
pub open spec fn veh_name(v: VehCriteria) -> Seq<char> {
    match v {
        VehCriteria::VCTMaxNumRows(_) => "VCTMaxNumRows"@,
        VehCriteria::VCTCurNumRows(_) => "VCTCurNumRows"@,
        VehCriteria::VehCriteriaTable => "VehCriteriaTable"@,
        VehCriteria::AxleNumber(_) => "AxleNumber"@,
        VehCriteria::NumAxles(_) => "NumAxles"@,
        VehCriteria::VehicleClass(_) => "VehicleClass"@,
        VehCriteria::VehicleSpeed(_) => "VehicleSpeed"@,
        VehCriteria::VehicleLength(_) => "VehicleLength"@,
        VehCriteria::FrontOverhang(_) => "FrontOverhang"@,
        VehCriteria::RearOverhang(_) => "RearOverhang"@,
        VehCriteria::AxleSpacing(_) => "AxleSpacing"@,
        VehCriteria::VehWheelbase(_) => "VehWheelbase"@,
        VehCriteria::VehClearance(_) => "VehClearance"@,
        VehCriteria::VehicleHeight(_) => "VehicleHeight"@,
        VehCriteria::AxleWidth(_) => "AxleWidth"@,
        VehCriteria::VehicleWidth(_) => "VehicleWidth"@,
        VehCriteria::AxleTireCount(_) => "AxleTireCount"@,
        VehCriteria::AxleTireTrack(_) => "AxleTireTrack"@,
        VehCriteria::VehicleGap(_) => "VehicleGap"@,
        VehCriteria::VehicleHeadway(_) => "VehicleHeadway"@,
        VehCriteria::LeftWheelWeigh(_) => "LeftWheelWeigh"@,
        VehCriteria::RightWheelWeight(_) => "RightWheelWeight"@,
        VehCriteria::AxleWeight(_) => "AxleWeight"@,
        VehCriteria::SensorWeight(_) => "SensorWeight"@,
        VehCriteria::GrossVehicleWeight(_) => "GrossVehicleWeight"@,
        VehCriteria::VehicleSeqNum(_) => "VehicleSeqNum"@,
        VehCriteria::VehicleStatusFlag(_) => "VehicleStatusFlag"@,
        VehCriteria::AxleWeightViolationCode(_) => "AxleWeightViolationCode"@,
        VehCriteria::VehicleAcceleration(_) => "VehicleAcceleration"@,
        VehCriteria::NumVehicleIDs(_) => "NumVehicleIDs"@,
        VehCriteria::VehicleID => "VehicleID"@,
        VehCriteria::VehicleTimeTag1000(_) => "VehicleTimeTag1000"@,
        VehCriteria::NotHere(_) => "Lane"@,
        VehCriteria::Unknown => "VehCriteria"@,
    }
}

/// The leaf arc that `VehCriteria::new` gives for `oid`.
pub open spec fn veh_arc_of(oid: i64) -> int {
    if 1 <= oid <= 32 {
        oid as int
    } else if oid == 9999 {
        33
    } else {
        0
    }
}

/// The values a fresh leaf holds: a zero for a single number, none else.
pub open spec fn zero_values(w: Width) -> Seq<int> {
    match w {
        Width::Fixed(_) => seq![0],
        Width::Signed(_) => seq![0],
        _ => Seq::empty(),
    }
}

fn to_u8s(v: &Vec<i64>) -> (r: Vec<u8>)
    requires
        forall|i: int| 0 <= i < v@.len() ==> 0 <= #[trigger] ints(v@)[i] < 0x100,
    ensures
        r@.map_values(|e: u8| e as int) == ints(v@),
{
    let mut r: Vec<u8> = Vec::new();
    let mut i: usize = 0;
    while i < v.len()
        invariant
            i <= v@.len(),
            forall|j: int| 0 <= j < v@.len() ==> 0 <= #[trigger] ints(v@)[j] < 0x100,
            r@.len() == i,
            forall|j: int| 0 <= j < i ==> #[trigger] r@[j] as int == v@[j] as int,
        decreases v@.len() - i,
    {
        assert(ints(v@)[i as int] == v@[i as int] as int);
        r.push(v[i] as u8);
        i += 1;
    }
    assert(r@.map_values(|e: u8| e as int) =~= ints(v@));
    r
}

fn to_u16s(v: &Vec<i64>) -> (r: Vec<u16>)
    requires
        forall|i: int| 0 <= i < v@.len() ==> 0 <= #[trigger] ints(v@)[i] < 0x1_0000,
    ensures
        r@.map_values(|e: u16| e as int) == ints(v@),
{
    let mut r: Vec<u16> = Vec::new();
    let mut i: usize = 0;
    while i < v.len()
        invariant
            i <= v@.len(),
            forall|j: int| 0 <= j < v@.len() ==> 0 <= #[trigger] ints(v@)[j] < 0x1_0000,
            r@.len() == i,
            forall|j: int| 0 <= j < i ==> #[trigger] r@[j] as int == v@[j] as int,
        decreases v@.len() - i,
    {
        assert(ints(v@)[i as int] == v@[i as int] as int);
        r.push(v[i] as u16);
        i += 1;
    }
    assert(r@.map_values(|e: u16| e as int) =~= ints(v@));
    r
}

fn to_u32s(v: &Vec<i64>) -> (r: Vec<u32>)
    requires
        forall|i: int| 0 <= i < v@.len() ==> 0 <= #[trigger] ints(v@)[i] < 0x1_0000_0000,
    ensures
        r@.map_values(|e: u32| e as int) == ints(v@),
{
    let mut r: Vec<u32> = Vec::new();
    let mut i: usize = 0;
    while i < v.len()
        invariant
            i <= v@.len(),
            forall|j: int| 0 <= j < v@.len() ==> 0 <= #[trigger] ints(v@)[j] < 0x1_0000_0000,
            r@.len() == i,
            forall|j: int| 0 <= j < i ==> #[trigger] r@[j] as int == v@[j] as int,
        decreases v@.len() - i,
    {
        assert(ints(v@)[i as int] == v@[i as int] as int);
        r.push(v[i] as u32);
        i += 1;
    }
    assert(r@.map_values(|e: u32| e as int) =~= ints(v@));
    r
}

impl VehCriteria {
    /// The leaf for arc `oid`; the lane leaf for 9999; unknown for any other.
    pub fn new(oid: i64) -> (r: Self)
        ensures
            veh_arc(r) == veh_arc_of(oid),
            veh_values(r) == zero_values(veh_width(r)),
    {
        let r = match oid {
            1 => VehCriteria::VCTMaxNumRows(0),
            2 => VehCriteria::VCTCurNumRows(0),
            3 => VehCriteria::VehCriteriaTable,
            4 => VehCriteria::AxleNumber(0),
            5 => VehCriteria::NumAxles(0),
            6 => VehCriteria::VehicleClass(0),
            7 => VehCriteria::VehicleSpeed(0),
            8 => VehCriteria::VehicleLength(0),
            9 => VehCriteria::FrontOverhang(0),
            10 => VehCriteria::RearOverhang(0),
            11 => VehCriteria::AxleSpacing(Vec::new()),
            12 => VehCriteria::VehWheelbase(0),
            13 => VehCriteria::VehClearance(0),
            14 => VehCriteria::VehicleHeight(0),
            15 => VehCriteria::AxleWidth(Vec::new()),
            16 => VehCriteria::VehicleWidth(0),
            17 => VehCriteria::AxleTireCount(Vec::new()),
            18 => VehCriteria::AxleTireTrack(Vec::new()),
            19 => VehCriteria::VehicleGap(0),
            20 => VehCriteria::VehicleHeadway(0),
            21 => VehCriteria::LeftWheelWeigh(Vec::new()),
            22 => VehCriteria::RightWheelWeight(Vec::new()),
            23 => VehCriteria::AxleWeight(Vec::new()),
            24 => VehCriteria::SensorWeight(Vec::new()),
            25 => VehCriteria::GrossVehicleWeight(0),
            26 => VehCriteria::VehicleSeqNum(0),
            27 => VehCriteria::VehicleStatusFlag(0),
            28 => VehCriteria::AxleWeightViolationCode(Vec::new()),
            29 => VehCriteria::VehicleAcceleration(0),
            30 => VehCriteria::NumVehicleIDs(0),
            31 => VehCriteria::VehicleID,
            32 => VehCriteria::VehicleTimeTag1000(0),
            9999 => VehCriteria::NotHere(0),
            _ => VehCriteria::Unknown,
        };
        assert(veh_values(r) =~= zero_values(veh_width(r)));
        r
    }


    /// The same leaf holding zero values.
    pub fn fresh(&self) -> (r: Self)
        ensures
            veh_arc(r) == veh_arc(*self),
            veh_width(r) == veh_width(*self),
            veh_path(r) == veh_path(*self),
    {
        match self {
            VehCriteria::Unknown => VehCriteria::Unknown,
            VehCriteria::VCTMaxNumRows(_) => VehCriteria::VCTMaxNumRows(0),
            VehCriteria::VCTCurNumRows(_) => VehCriteria::VCTCurNumRows(0),
            VehCriteria::VehCriteriaTable => VehCriteria::VehCriteriaTable,
            VehCriteria::AxleNumber(_) => VehCriteria::AxleNumber(0),
            VehCriteria::NumAxles(_) => VehCriteria::NumAxles(0),
            VehCriteria::VehicleClass(_) => VehCriteria::VehicleClass(0),
            VehCriteria::VehicleSpeed(_) => VehCriteria::VehicleSpeed(0),
            VehCriteria::VehicleLength(_) => VehCriteria::VehicleLength(0),
            VehCriteria::FrontOverhang(_) => VehCriteria::FrontOverhang(0),
            VehCriteria::RearOverhang(_) => VehCriteria::RearOverhang(0),
            VehCriteria::AxleSpacing(_) => VehCriteria::AxleSpacing(Vec::new()),
            VehCriteria::VehWheelbase(_) => VehCriteria::VehWheelbase(0),
            VehCriteria::VehClearance(_) => VehCriteria::VehClearance(0),
            VehCriteria::VehicleHeight(_) => VehCriteria::VehicleHeight(0),
            VehCriteria::AxleWidth(_) => VehCriteria::AxleWidth(Vec::new()),
            VehCriteria::VehicleWidth(_) => VehCriteria::VehicleWidth(0),
            VehCriteria::AxleTireCount(_) => VehCriteria::AxleTireCount(Vec::new()),
            VehCriteria::AxleTireTrack(_) => VehCriteria::AxleTireTrack(Vec::new()),
            VehCriteria::VehicleGap(_) => VehCriteria::VehicleGap(0),
            VehCriteria::VehicleHeadway(_) => VehCriteria::VehicleHeadway(0),
            VehCriteria::LeftWheelWeigh(_) => VehCriteria::LeftWheelWeigh(Vec::new()),
            VehCriteria::RightWheelWeight(_) => VehCriteria::RightWheelWeight(Vec::new()),
            VehCriteria::AxleWeight(_) => VehCriteria::AxleWeight(Vec::new()),
            VehCriteria::SensorWeight(_) => VehCriteria::SensorWeight(Vec::new()),
            VehCriteria::GrossVehicleWeight(_) => VehCriteria::GrossVehicleWeight(0),
            VehCriteria::VehicleSeqNum(_) => VehCriteria::VehicleSeqNum(0),
            VehCriteria::VehicleStatusFlag(_) => VehCriteria::VehicleStatusFlag(0),
            VehCriteria::AxleWeightViolationCode(_) => VehCriteria::AxleWeightViolationCode(Vec::new()),
            VehCriteria::VehicleAcceleration(_) => VehCriteria::VehicleAcceleration(0),
            VehCriteria::NumVehicleIDs(_) => VehCriteria::NumVehicleIDs(0),
            VehCriteria::VehicleID => VehCriteria::VehicleID,
            VehCriteria::VehicleTimeTag1000(_) => VehCriteria::VehicleTimeTag1000(0),
            VehCriteria::NotHere(_) => VehCriteria::NotHere(0),
        }
    }

    /// The byte layout of this leaf in a record.
    pub fn width(&self) -> (r: Width)
        ensures
            r == veh_width(*self),
            r.ok(),
    {
        match self {
            VehCriteria::Unknown => Width::Unsized,
            VehCriteria::VCTMaxNumRows(_) => Width::Signed(4),
            VehCriteria::VCTCurNumRows(_) => Width::Signed(4),
            VehCriteria::VehCriteriaTable => Width::Unsized,
            VehCriteria::AxleNumber(_) => Width::Fixed(1),
            VehCriteria::NumAxles(_) => Width::Fixed(1),
            VehCriteria::VehicleClass(_) => Width::Fixed(1),
            VehCriteria::VehicleSpeed(_) => Width::Fixed(2),
            VehCriteria::VehicleLength(_) => Width::Fixed(2),
            VehCriteria::FrontOverhang(_) => Width::Fixed(2),
            VehCriteria::RearOverhang(_) => Width::Fixed(2),
            VehCriteria::AxleSpacing(_) => Width::Counted(2),
            VehCriteria::VehWheelbase(_) => Width::Fixed(2),
            VehCriteria::VehClearance(_) => Width::Fixed(1),
            VehCriteria::VehicleHeight(_) => Width::Fixed(2),
            VehCriteria::AxleWidth(_) => Width::Counted(2),
            VehCriteria::VehicleWidth(_) => Width::Fixed(2),
            VehCriteria::AxleTireCount(_) => Width::Counted(1),
            VehCriteria::AxleTireTrack(_) => Width::Counted(2),
            VehCriteria::VehicleGap(_) => Width::Fixed(3),
            VehCriteria::VehicleHeadway(_) => Width::Fixed(3),
            VehCriteria::LeftWheelWeigh(_) => Width::Counted(2),
            VehCriteria::RightWheelWeight(_) => Width::Counted(2),
            VehCriteria::AxleWeight(_) => Width::Counted(2),
            VehCriteria::SensorWeight(_) => Width::Counted(2),
            VehCriteria::GrossVehicleWeight(_) => Width::Fixed(3),
            VehCriteria::VehicleSeqNum(_) => Width::Fixed(2),
            VehCriteria::VehicleStatusFlag(_) => Width::Fixed(4),
            VehCriteria::AxleWeightViolationCode(_) => Width::Counted(3),
            VehCriteria::VehicleAcceleration(_) => Width::Signed(2),
            VehCriteria::NumVehicleIDs(_) => Width::Fixed(1),
            VehCriteria::VehicleID => Width::Unsized,
            VehCriteria::VehicleTimeTag1000(_) => Width::Fixed(2),
            VehCriteria::NotHere(_) => Width::Fixed(1),
        }
    }

    /// The leaf arc of this leaf within its subtree.
    pub fn arc(&self) -> (r: i64)
        ensures
            r == veh_arc(*self),
    {
        match self {
            VehCriteria::Unknown => 0,
            VehCriteria::VCTMaxNumRows(_) => 1,
            VehCriteria::VCTCurNumRows(_) => 2,
            VehCriteria::VehCriteriaTable => 3,
            VehCriteria::AxleNumber(_) => 4,
            VehCriteria::NumAxles(_) => 5,
            VehCriteria::VehicleClass(_) => 6,
            VehCriteria::VehicleSpeed(_) => 7,
            VehCriteria::VehicleLength(_) => 8,
            VehCriteria::FrontOverhang(_) => 9,
            VehCriteria::RearOverhang(_) => 10,
            VehCriteria::AxleSpacing(_) => 11,
            VehCriteria::VehWheelbase(_) => 12,
            VehCriteria::VehClearance(_) => 13,
            VehCriteria::VehicleHeight(_) => 14,
            VehCriteria::AxleWidth(_) => 15,
            VehCriteria::VehicleWidth(_) => 16,
            VehCriteria::AxleTireCount(_) => 17,
            VehCriteria::AxleTireTrack(_) => 18,
            VehCriteria::VehicleGap(_) => 19,
            VehCriteria::VehicleHeadway(_) => 20,
            VehCriteria::LeftWheelWeigh(_) => 21,
            VehCriteria::RightWheelWeight(_) => 22,
            VehCriteria::AxleWeight(_) => 23,
            VehCriteria::SensorWeight(_) => 24,
            VehCriteria::GrossVehicleWeight(_) => 25,
            VehCriteria::VehicleSeqNum(_) => 26,
            VehCriteria::VehicleStatusFlag(_) => 27,
            VehCriteria::AxleWeightViolationCode(_) => 28,
            VehCriteria::VehicleAcceleration(_) => 29,
            VehCriteria::NumVehicleIDs(_) => 30,
            VehCriteria::VehicleID => 31,
            VehCriteria::VehicleTimeTag1000(_) => 32,
            VehCriteria::NotHere(_) => 33,
        }
    }

    /// The numbers this leaf holds.
    pub fn get_values(&self) -> (r: Vec<i64>)
        ensures
            ints(r@) == veh_values(*self),
    {
        let mut r: Vec<i64> = Vec::new();
        match self {
            VehCriteria::Unknown => {},
            VehCriteria::VCTMaxNumRows(x) => {
                r.push(*x as i64);
            },
            VehCriteria::VCTCurNumRows(x) => {
                r.push(*x as i64);
            },
            VehCriteria::VehCriteriaTable => {},
            VehCriteria::AxleNumber(x) => {
                r.push(*x as i64);
            },
            VehCriteria::NumAxles(x) => {
                r.push(*x as i64);
            },
            VehCriteria::VehicleClass(x) => {
                r.push(*x as i64);
            },
            VehCriteria::VehicleSpeed(x) => {
                r.push(*x as i64);
            },
            VehCriteria::VehicleLength(x) => {
                r.push(*x as i64);
            },
            VehCriteria::FrontOverhang(x) => {
                r.push(*x as i64);
            },
            VehCriteria::RearOverhang(x) => {
                r.push(*x as i64);
            },
            VehCriteria::AxleSpacing(x) => {
                let mut i: usize = 0;
                while i < x.len()
                    invariant
                        i <= x@.len(),
                        r@.len() == i,
                        forall|j: int| 0 <= j < i ==> #[trigger] r@[j] as int == x@[j] as int,
                    decreases x@.len() - i,
                {
                    r.push(x[i] as i64);
                    i += 1;
                }
            },
            VehCriteria::VehWheelbase(x) => {
                r.push(*x as i64);
            },
            VehCriteria::VehClearance(x) => {
                r.push(*x as i64);
            },
            VehCriteria::VehicleHeight(x) => {
                r.push(*x as i64);
            },
            VehCriteria::AxleWidth(x) => {
                let mut i: usize = 0;
                while i < x.len()
                    invariant
                        i <= x@.len(),
                        r@.len() == i,
                        forall|j: int| 0 <= j < i ==> #[trigger] r@[j] as int == x@[j] as int,
                    decreases x@.len() - i,
                {
                    r.push(x[i] as i64);
                    i += 1;
                }
            },
            VehCriteria::VehicleWidth(x) => {
                r.push(*x as i64);
            },
            VehCriteria::AxleTireCount(x) => {
                let mut i: usize = 0;
                while i < x.len()
                    invariant
                        i <= x@.len(),
                        r@.len() == i,
                        forall|j: int| 0 <= j < i ==> #[trigger] r@[j] as int == x@[j] as int,
                    decreases x@.len() - i,
                {
                    r.push(x[i] as i64);
                    i += 1;
                }
            },
            VehCriteria::AxleTireTrack(x) => {
                let mut i: usize = 0;
                while i < x.len()
                    invariant
                        i <= x@.len(),
                        r@.len() == i,
                        forall|j: int| 0 <= j < i ==> #[trigger] r@[j] as int == x@[j] as int,
                    decreases x@.len() - i,
                {
                    r.push(x[i] as i64);
                    i += 1;
                }
            },
            VehCriteria::VehicleGap(x) => {
                r.push(*x as i64);
            },
            VehCriteria::VehicleHeadway(x) => {
                r.push(*x as i64);
            },
            VehCriteria::LeftWheelWeigh(x) => {
                let mut i: usize = 0;
                while i < x.len()
                    invariant
                        i <= x@.len(),
                        r@.len() == i,
                        forall|j: int| 0 <= j < i ==> #[trigger] r@[j] as int == x@[j] as int,
                    decreases x@.len() - i,
                {
                    r.push(x[i] as i64);
                    i += 1;
                }
            },
            VehCriteria::RightWheelWeight(x) => {
                let mut i: usize = 0;
                while i < x.len()
                    invariant
                        i <= x@.len(),
                        r@.len() == i,
                        forall|j: int| 0 <= j < i ==> #[trigger] r@[j] as int == x@[j] as int,
                    decreases x@.len() - i,
                {
                    r.push(x[i] as i64);
                    i += 1;
                }
            },
            VehCriteria::AxleWeight(x) => {
                let mut i: usize = 0;
                while i < x.len()
                    invariant
                        i <= x@.len(),
                        r@.len() == i,
                        forall|j: int| 0 <= j < i ==> #[trigger] r@[j] as int == x@[j] as int,
                    decreases x@.len() - i,
                {
                    r.push(x[i] as i64);
                    i += 1;
                }
            },
            VehCriteria::SensorWeight(x) => {
                let mut i: usize = 0;
                while i < x.len()
                    invariant
                        i <= x@.len(),
                        r@.len() == i,
                        forall|j: int| 0 <= j < i ==> #[trigger] r@[j] as int == x@[j] as int,
                    decreases x@.len() - i,
                {
                    r.push(x[i] as i64);
                    i += 1;
                }
            },
            VehCriteria::GrossVehicleWeight(x) => {
                r.push(*x as i64);
            },
            VehCriteria::VehicleSeqNum(x) => {
                r.push(*x as i64);
            },
            VehCriteria::VehicleStatusFlag(x) => {
                r.push(*x as i64);
            },
            VehCriteria::AxleWeightViolationCode(x) => {
                let mut i: usize = 0;
                while i < x.len()
                    invariant
                        i <= x@.len(),
                        r@.len() == i,
                        forall|j: int| 0 <= j < i ==> #[trigger] r@[j] as int == x@[j] as int,
                    decreases x@.len() - i,
                {
                    r.push(x[i] as i64);
                    i += 1;
                }
            },
            VehCriteria::VehicleAcceleration(x) => {
                r.push(*x as i64);
            },
            VehCriteria::NumVehicleIDs(x) => {
                r.push(*x as i64);
            },
            VehCriteria::VehicleID => {},
            VehCriteria::VehicleTimeTag1000(x) => {
                r.push(*x as i64);
            },
            VehCriteria::NotHere(x) => {
                r.push(*x as i64);
            },
        }
        assert(ints(r@) =~= veh_values(*self));
        r
    }

    /// Puts values read from a record into this leaf; the leaf stays the same.
    #[verifier::rlimit(50)]
    fn set_values(&mut self, v: &Vec<i64>)
        requires
            fits(veh_width(*old(self)), ints(v@)),
        ensures
            veh_arc(*final(self)) == veh_arc(*old(self)),
            veh_values(*final(self)) == ints(v@),
    {
        proof {
            crate::bytes::reveal_pow256();
        }
        match self {
            VehCriteria::Unknown => {},
            VehCriteria::VCTMaxNumRows(x) => {
                *x = v[0] as i32;
            },
            VehCriteria::VCTCurNumRows(x) => {
                *x = v[0] as i32;
            },
            VehCriteria::VehCriteriaTable => {},
            VehCriteria::AxleNumber(x) => {
                *x = v[0] as u8;
            },
            VehCriteria::NumAxles(x) => {
                *x = v[0] as u8;
            },
            VehCriteria::VehicleClass(x) => {
                *x = v[0] as u8;
            },
            VehCriteria::VehicleSpeed(x) => {
                *x = v[0] as u16;
            },
            VehCriteria::VehicleLength(x) => {
                *x = v[0] as u16;
            },
            VehCriteria::FrontOverhang(x) => {
                *x = v[0] as u16;
            },
            VehCriteria::RearOverhang(x) => {
                *x = v[0] as u16;
            },
            VehCriteria::AxleSpacing(x) => {
                *x = to_u16s(v);
            },
            VehCriteria::VehWheelbase(x) => {
                *x = v[0] as u16;
            },
            VehCriteria::VehClearance(x) => {
                *x = v[0] as u8;
            },
            VehCriteria::VehicleHeight(x) => {
                *x = v[0] as u16;
            },
            VehCriteria::AxleWidth(x) => {
                *x = to_u16s(v);
            },
            VehCriteria::VehicleWidth(x) => {
                *x = v[0] as u16;
            },
            VehCriteria::AxleTireCount(x) => {
                *x = to_u8s(v);
            },
            VehCriteria::AxleTireTrack(x) => {
                *x = to_u16s(v);
            },
            VehCriteria::VehicleGap(x) => {
                *x = v[0] as u32;
            },
            VehCriteria::VehicleHeadway(x) => {
                *x = v[0] as u32;
            },
            VehCriteria::LeftWheelWeigh(x) => {
                *x = to_u16s(v);
            },
            VehCriteria::RightWheelWeight(x) => {
                *x = to_u16s(v);
            },
            VehCriteria::AxleWeight(x) => {
                *x = to_u16s(v);
            },
            VehCriteria::SensorWeight(x) => {
                *x = to_u16s(v);
            },
            VehCriteria::GrossVehicleWeight(x) => {
                *x = v[0] as u32;
            },
            VehCriteria::VehicleSeqNum(x) => {
                *x = v[0] as u16;
            },
            VehCriteria::VehicleStatusFlag(x) => {
                *x = v[0] as u32;
            },
            VehCriteria::AxleWeightViolationCode(x) => {
                *x = to_u32s(v);
            },
            VehCriteria::VehicleAcceleration(x) => {
                *x = v[0] as i16;
            },
            VehCriteria::NumVehicleIDs(x) => {
                *x = v[0] as u8;
            },
            VehCriteria::VehicleID => {},
            VehCriteria::VehicleTimeTag1000(x) => {
                *x = v[0] as u16;
            },
            VehCriteria::NotHere(x) => {
                *x = v[0] as u8;
            },
        }
        assert(veh_values(*self) =~= ints(v@));
    }

    /// Reads this leaf's value from the record blob at `blob[pos..]`, and
    /// gives the position after it.
    pub fn get_value(&mut self, blob: &[u8], pos: usize) -> (r: Result<usize, AsnError>)
        requires
            pos <= blob@.len(),
        ensures
            veh_arc(*final(self)) == veh_arc(*old(self)),
            match r {
                Ok(np) => {
                    &&& pos <= np <= blob@.len()
                    &&& parse_field(
                        veh_width(*old(self)),
                        blob@.subrange(pos as int, blob@.len() as int),
                    ) == Some((veh_values(*final(self)), (np - pos) as nat))
                },
                Err(e) => {
                    &&& e == AsnError::TruncatedRecord
                    &&& parse_field(
                        veh_width(*old(self)),
                        blob@.subrange(pos as int, blob@.len() as int),
                    ) is None
                    &&& *final(self) == *old(self)
                },
            },
    {
        let w = self.width();
        match read_field(w, blob, pos) {
            Ok((vals, np)) => {
                proof {
                    lemma_field_bytes_of_parse(w, blob@.subrange(pos as int, blob@.len() as int));
                }
                self.set_values(&vals);
                Ok(np)
            },
            Err(e) => Err(e),
        }
    }

    /// The bytes of this leaf's value in a record.
    pub fn to_bytes(&self) -> (r: Vec<u8>)
        requires
            writable(veh_width(*self), veh_values(*self)),
        ensures
            r@ == field_bytes(veh_width(*self), veh_values(*self)),
    {
        let vals = self.get_values();
        let mut out: Vec<u8> = Vec::new();
        write_field(self.width(), &vals, &mut out);
        assert(out@ =~= field_bytes(veh_width(*self), veh_values(*self)));
        out
    }

    /// The element width in bytes; -1 for a leaf without bytes.
    pub fn len_value(&self) -> (r: i32)
        ensures
            r as int == match veh_width(*self) {
                Width::Unsized => -1,
                Width::Fixed(n) => n as int,
                Width::Signed(n) => n as int,
                Width::Counted(n) => n as int,
            },
    {
        match self.width() {
            Width::Unsized => -1,
            Width::Fixed(n) => n as i32,
            Width::Signed(n) => n as i32,
            Width::Counted(n) => n as i32,
        }
    }

    /// The leaf's display name.
    pub fn get_name(&self) -> (r: &'static str)
        ensures
            r@ == veh_name(*self),
    {
        match self {
            VehCriteria::VCTMaxNumRows(_) => "VCTMaxNumRows",
            VehCriteria::VCTCurNumRows(_) => "VCTCurNumRows",
            VehCriteria::VehCriteriaTable => "VehCriteriaTable",
            VehCriteria::AxleNumber(_) => "AxleNumber",
            VehCriteria::NumAxles(_) => "NumAxles",
            VehCriteria::VehicleClass(_) => "VehicleClass",
            VehCriteria::VehicleSpeed(_) => "VehicleSpeed",
            VehCriteria::VehicleLength(_) => "VehicleLength",
            VehCriteria::FrontOverhang(_) => "FrontOverhang",
            VehCriteria::RearOverhang(_) => "RearOverhang",
            VehCriteria::AxleSpacing(_) => "AxleSpacing",
            VehCriteria::VehWheelbase(_) => "VehWheelbase",
            VehCriteria::VehClearance(_) => "VehClearance",
            VehCriteria::VehicleHeight(_) => "VehicleHeight",
            VehCriteria::AxleWidth(_) => "AxleWidth",
            VehCriteria::VehicleWidth(_) => "VehicleWidth",
            VehCriteria::AxleTireCount(_) => "AxleTireCount",
            VehCriteria::AxleTireTrack(_) => "AxleTireTrack",
            VehCriteria::VehicleGap(_) => "VehicleGap",
            VehCriteria::VehicleHeadway(_) => "VehicleHeadway",
            VehCriteria::LeftWheelWeigh(_) => "LeftWheelWeigh",
            VehCriteria::RightWheelWeight(_) => "RightWheelWeight",
            VehCriteria::AxleWeight(_) => "AxleWeight",
            VehCriteria::SensorWeight(_) => "SensorWeight",
            VehCriteria::GrossVehicleWeight(_) => "GrossVehicleWeight",
            VehCriteria::VehicleSeqNum(_) => "VehicleSeqNum",
            VehCriteria::VehicleStatusFlag(_) => "VehicleStatusFlag",
            VehCriteria::AxleWeightViolationCode(_) => "AxleWeightViolationCode",
            VehCriteria::VehicleAcceleration(_) => "VehicleAcceleration",
            VehCriteria::NumVehicleIDs(_) => "NumVehicleIDs",
            VehCriteria::VehicleID => "VehicleID",
            VehCriteria::VehicleTimeTag1000(_) => "VehicleTimeTag1000",
            VehCriteria::NotHere(_) => "Lane",
            VehCriteria::Unknown => "VehCriteria",
        }
    }

    /// The leaf's path under the module subtree.
    pub fn to_oid(&self) -> (r: Vec<i64>)
        ensures
            r@.map_values(|e: i64| e as int) == veh_path(*self),
    {
        let r = match self {
            VehCriteria::NotHere(_) => vec![0, 4, 9, 1, 1],
            _ => vec![0, 1, self.arc()],
        };
        assert(r@.map_values(|e: i64| e as int) =~= veh_path(*self));
        r
    }
}

} // verus!
