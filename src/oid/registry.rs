//! Paths and the leaves they name: the two-level dispatch under the vendor
//! prefix, in both directions.

use vstd::prelude::*;

use crate::bytes::be_value;
use crate::oid::field::{
    field_bytes, ints, lemma_field_bytes_of_parse, parse_field, read_field, writable,
    write_field, Width,
};
use crate::oid::leaves::{
    DataStructureEntry, PvrStudyConfigEntry, SiteDescription, SiteId, StudyConfigEntry,
};
use crate::oid::veh_criteria::{
    veh_arc, veh_name, veh_path, veh_values, veh_width, zero_values, VehCriteria,
};
use crate::value::{AsnError, AsnOID, Integer, Tree, ASN};

verus! {

/// The vendor prefix under which every path of the schema stands.
pub open spec fn base() -> Seq<int> {
    seq![1, 3, 6, 1, 4, 1, 1206, 4, 2]
}

/// The vendor prefix.
pub fn base_path() -> (r: Vec<i64>)
    ensures
        ints(r@) == base(),
{
    let r: Vec<i64> = vec![1, 3, 6, 1, 4, 1, 1206, 4, 2];
    assert(ints(r@) =~= base());
    r
}

/// `p` begins with `q`.
pub open spec fn starts_with(p: Seq<int>, q: Seq<int>) -> bool {
    q.len() <= p.len() && p.subrange(0, q.len() as int) == q
}

/// The MIB version of the file.
#[derive(Clone, Copy, Debug, PartialEq, Eq, Structural)]
pub struct MibVersionNumber {
    pub version: Integer,
}

impl MibVersionNumber {
    /// The version that an integer node holds; 0 for any other node.
    pub fn new(version: ASN) -> (r: Self)
        ensures
            r.version.content == match version@ {
                Tree::Integer(v) => v,
                _ => 0,
            },
    {
        match version {
            ASN::Integer(i) => MibVersionNumber { version: i },
            _ => MibVersionNumber { version: Integer { content: 0 } },
        }
    }

    /// Takes the version from an integer node; any other node leaves it.
    pub fn set(&mut self, version: ASN)
        ensures
            final(self).version.content == match version@ {
                Tree::Integer(v) => v,
                _ => old(self).version.content,
            },
    {
        if let ASN::Integer(i) = version {
            self.version = i;
        }
    }

    /// The version number, in hundredths.
    pub fn value(&self) -> (r: i64)
        ensures
            r == self.version.content,
    {
        self.version.content
    }
}

/// The prefix that a leading `0` arc in a header path stands for, once the
/// file has given one.
#[derive(Clone, Debug, PartialEq, Eq)]
pub struct RelativeAddrOID(pub Option<AsnOID>);

impl RelativeAddrOID {
    /// The prefix that an object-identifier node holds; none for any other node.
    pub fn new(relative: ASN) -> (r: Self)
        ensures
            match (r.0, relative@) {
                (Some(o), Tree::OID(a)) => o.content@ == a,
                (None, t) => !(t is OID),
                _ => false,
            },
    {
        match relative {
            ASN::OID(o) => RelativeAddrOID(Some(o)),
            _ => RelativeAddrOID(None),
        }
    }

    /// Takes the prefix from an object-identifier node; any other node clears it.
    pub fn set(&mut self, relative: ASN)
        ensures
            match (final(self).0, relative@) {
                (Some(o), Tree::OID(a)) => o.content@ == a,
                (None, t) => !(t is OID),
                _ => false,
            },
    {
        *self = RelativeAddrOID::new(relative);
    }
}

/// The node is a row of the data structure table.
pub open spec fn is_row_node(t: Tree) -> bool {
    match t {
        Tree::Sequence(row) => crate::oid::leaves::is_data_structure_row(row),
        _ => false,
    }
}

/// The rows of the data structure table.
#[derive(Clone, Debug, PartialEq, Eq)]
pub struct DataStructureTable(pub Vec<DataStructureEntry>);

impl DataStructureTable {
    /// Appends a row for each child of a sequence node; where the node is not
    /// a sequence of rows, nothing is appended.
    #[verifier::rlimit(40)]
    pub fn set(&mut self, values: ASN) -> (r: Result<(), AsnError>)
        ensures
            match values@ {
                Tree::Sequence(c) => if forall|i: int|
                    0 <= i < c.len() ==> is_row_node(#[trigger] c[i]) {
                    &&& r is Ok
                    &&& final(self).0@.len() == old(self).0@.len() + c.len()
                    &&& final(self).0@.subrange(0, old(self).0@.len() as int) == old(self).0@
                    &&& forall|i: int|
                        0 <= i < c.len() ==> Tree::Sequence(
                            (#[trigger] final(self).0@[old(self).0@.len() + i]).row_view(),
                        ) == c[i]
                } else {
                    r == Err::<(), AsnError>(AsnError::TypeMismatch) && *final(self) == *old(self)
                },
                _ => r == Err::<(), AsnError>(AsnError::TypeMismatch) && *final(self) == *old(self),
            },
    {
        let ghost t = values@;
        let mut children = match values {
            ASN::Sequence(q) => q.content,
            _ => {
                return Err(AsnError::TypeMismatch);
            },
        };
        let ghost c = crate::decode::views(children@);
        proof {
            match t {
                Tree::Sequence(tc) => {
                    assert(tc =~= c);
                },
                _ => {},
            }
            assert(t == Tree::Sequence(c));
        }
        let mut rows: Vec<DataStructureEntry> = Vec::new();
        let n = children.len();
        // take the children from the back, then put the rows in order
        while children.len() > 0
            invariant
                children@.len() <= n,
                n == c.len(),
                t == Tree::Sequence(c),
                values@ == t,
                *self == *old(self),
                forall|j: int| 0 <= j < children@.len() ==> #[trigger] children@[j]@ == c[j],
                rows@.len() == n - children@.len(),
                forall|j: int|
                    0 <= j < rows@.len() ==> Tree::Sequence(#[trigger] rows@[j].row_view())
                        == c[n - 1 - j],
                forall|j: int|
                    children@.len() <= j < n ==> is_row_node(c[j]),
            decreases children@.len(),
        {
            let node = children.pop().unwrap();
            let ghost k = children@.len();
            assert(node@ == c[k as int]);
            match DataStructureEntry::from_node(node) {
                Ok(e) => {
                    rows.push(e);
                },
                Err(e) => {
                    assert(!is_row_node(c[k as int]));
                    return Err(e);
                },
            }
        }
        let m = rows.len();
        let mut j: usize = 0;
        while j < m
            invariant
                rows@.len() == m - j,
                m == n,
                n == c.len(),
                t == Tree::Sequence(c),
                values@ == t,
                self.0@.len() == old(self).0@.len() + j,
                self.0@.subrange(0, old(self).0@.len() as int) == old(self).0@,
                forall|x: int|
                    0 <= x < rows@.len() ==> Tree::Sequence(#[trigger] rows@[x].row_view())
                        == c[n - 1 - x],
                forall|x: int|
                    0 <= x < j ==> Tree::Sequence(
                        (#[trigger] self.0@[old(self).0@.len() + x]).row_view(),
                    ) == c[x],
                forall|x: int|
                    0 <= x < n ==> is_row_node(c[x]),
            decreases m - j,
        {
            let e = rows.pop().unwrap();
            self.0.push(e);
            proof {
                assert(self.0@.subrange(0, old(self).0@.len() as int) =~= old(self).0@);
            }
            j += 1;
        }
        Ok(())
    }

    /// The rows.
    pub fn to_vec(self) -> (r: Vec<DataStructureEntry>)
        ensures
            r == self.0,
    {
        self.0
    }
}

/// Every node of a row holds zero or nothing.
pub open spec fn row_is_empty(row: Seq<Tree>) -> bool {
    forall|i: int|
        0 <= i < row.len() ==> match #[trigger] row[i] {
            Tree::Integer(x) => x == 0,
            Tree::Application(b) => b.len() == 0,
            Tree::OID(a) => a.len() == 0,
            Tree::OctetString(b) => b.len() == 0,
            _ => false,
        }
}

/// A module leaf as a path resolves to it: holding zero or nothing.
pub open spec fn fresh_dcm(d: Dcm) -> bool {
    match d {
        Dcm::VehCriteria(v) => veh_values(v) == zero_values(veh_width(v)),
        Dcm::SiteSetup(SiteSetup::SiteId(x)) => x.id@.len() == 0,
        Dcm::SiteSetup(SiteSetup::SiteDescription(x)) => x.description@.len() == 0,
        Dcm::StudyConfig(StudyConfig::StudyConfigTable(e)) => row_is_empty(e.row_view()),
        Dcm::StudyDataSetup(StudyDataSetup::PvrStudyConfigTable(e)) => row_is_empty(e.row_view()),
        Dcm::StudyDataSetup(StudyDataSetup::DataStructureTable(t)) => t.0@.len() == 0,
        Dcm::RelativeAddrOID(x) => x.0 is None,
        Dcm::MibVersionNumber(m) => m.version.content == 0,
        _ => true,
    }
}

/// The site-setup subtree.
#[derive(Clone, Debug, PartialEq, Eq)]
pub enum SiteSetup {
    Unknown,
    SiteId(SiteId),
    SiteDescription(SiteDescription),
    LogicalIOArrayMapTable,
}

impl SiteSetup {
    /// The leaf for arc `oid`: 1 the identifier, 3 the description.
    pub fn new(oid: i64) -> (r: Self)
        ensures
            site_arc(r) == if oid == 1 || oid == 3 {
                oid as int
            } else {
                0
            },
            r matches SiteSetup::SiteId(x) ==> x.id@.len() == 0,
            r matches SiteSetup::SiteDescription(x) ==> x.description@.len() == 0,
    {
        match oid {
            1 => SiteSetup::SiteId(SiteId::new()),
            3 => SiteSetup::SiteDescription(SiteDescription::new()),
            _ => SiteSetup::Unknown,
        }
    }
}

pub open spec fn site_arc(s: SiteSetup) -> int {
    match s {
        SiteSetup::Unknown => 0,
        SiteSetup::SiteId(_) => 1,
        SiteSetup::SiteDescription(_) => 3,
        SiteSetup::LogicalIOArrayMapTable => 9,
    }
}

/// The study-configuration subtree.
#[derive(Clone, Debug, PartialEq, Eq)]
pub enum StudyConfig {
    Unknown,
    StudyConfigTable(StudyConfigEntry),
}

impl StudyConfig {
    /// The leaf for arc `oid`: 5 the configuration table.
    pub fn new(oid: i64) -> (r: Self)
        ensures
            r is StudyConfigTable <==> oid == 5,
            fresh_dcm(Dcm::StudyConfig(r)),
    {
        match oid {
            5 => StudyConfig::StudyConfigTable(StudyConfigEntry::new_empty()),
            _ => StudyConfig::Unknown,
        }
    }
}

pub open spec fn study_config_arc(s: StudyConfig) -> int {
    match s {
        StudyConfig::Unknown => 0,
        StudyConfig::StudyConfigTable(_) => 5,
    }
}

/// The study-data-setup subtree.
#[derive(Clone, Debug, PartialEq, Eq)]
pub enum StudyDataSetup {
    Unknown,
    PvrStudyConfigTable(PvrStudyConfigEntry),
    DataStructureTable(DataStructureTable),
}

impl StudyDataSetup {
    /// The leaf for arc `oid`: 14 the per-vehicle-record configuration table,
    /// 30 the data structure table.
    pub fn new(oid: i64) -> (r: Self)
        ensures
            study_data_arc(r) == if oid == 14 || oid == 30 {
                oid as int
            } else {
                0
            },
            r matches StudyDataSetup::DataStructureTable(t) ==> t.0@.len() == 0,
            fresh_dcm(Dcm::StudyDataSetup(r)),
    {
        match oid {
            14 => StudyDataSetup::PvrStudyConfigTable(PvrStudyConfigEntry::new_empty()),
            30 => StudyDataSetup::DataStructureTable(DataStructureTable(Vec::new())),
            _ => StudyDataSetup::Unknown,
        }
    }
}

pub open spec fn study_data_arc(s: StudyDataSetup) -> int {
    match s {
        StudyDataSetup::Unknown => 0,
        StudyDataSetup::PvrStudyConfigTable(_) => 14,
        StudyDataSetup::DataStructureTable(_) => 30,
    }
}

/// The traffic module's subtree.
#[derive(Clone, Debug, PartialEq, Eq)]
pub enum Dcm {
    Unknown,
    VehCriteria(VehCriteria),
    SiteSetup(SiteSetup),
    StudyConfig(StudyConfig),
    StudyDataSetup(StudyDataSetup),
    RelativeAddrOID(RelativeAddrOID),
    MibVersionNumber(MibVersionNumber),
}

/// A date leaf of the global subtree: a 32-bit number.
#[derive(Clone, Copy, Debug, PartialEq, Eq, Structural)]
pub struct Date(pub u32);

impl Date {
    /// The date that four big-endian bytes spell.
    pub fn new(date: [u8; 4]) -> (r: Self)
        ensures
            r.0 as nat == be_value(date@),
    {
        let b: Vec<u8> = vec![date[0], date[1], date[2], date[3]];
        assert(b@ =~= date@);
        let x = crate::bytes::read_be(b.as_slice(), 0, 4);
        assert(b@.subrange(0, 4) =~= b@);
        proof {
            crate::bytes::lemma_be_value_bound(b@);
            crate::bytes::reveal_pow256();
        }
        Date(x as u32)
    }
}

/// A leaf of any subtree.
#[derive(Clone, Debug, PartialEq, Eq)]
pub enum Device {
    Unknown,
    ASC,
    GLOBAL(Date),
    DCM(Dcm),
}

/// The path of a module leaf below the vendor prefix's module arc, led by a `0`.
pub open spec fn dcm_path(d: Dcm) -> Seq<int> {
    match d {
        Dcm::VehCriteria(v) => seq![0, 9] + veh_path(v).drop_first(),
        Dcm::SiteSetup(x) => seq![0, 9, 4, site_arc(x)],
        Dcm::StudyConfig(x) => seq![0, 9, 5, study_config_arc(x)],
        Dcm::StudyDataSetup(x) => seq![0, 9, 6, study_data_arc(x)],
        Dcm::RelativeAddrOID(_) => seq![0, 9, 9],
        Dcm::MibVersionNumber(_) => seq![0, 9, 10],
        Dcm::Unknown => seq![0, 9],
    }
}

/// The absolute path of a leaf.
pub open spec fn device_path(d: Device) -> Seq<int> {
    match d {
        Device::DCM(x) => base() + dcm_path(x).drop_first(),
        Device::GLOBAL(_) => base() + seq![6, 3, 6],
        _ => base(),
    }
}

/// The byte layout of a leaf in a record.
pub open spec fn device_width(d: Device) -> Width {
    match d {
        Device::DCM(Dcm::VehCriteria(v)) => veh_width(v),
        Device::GLOBAL(_) => Width::Fixed(4),
        _ => Width::Unsized,
    }
}

/// The numbers a leaf holds in a record.
pub open spec fn device_values(d: Device) -> Seq<int> {
    match d {
        Device::DCM(Dcm::VehCriteria(v)) => veh_values(v),
        Device::GLOBAL(x) => seq![x.0 as int],
        _ => Seq::empty(),
    }
}

/// The path below the vendor prefix that a module path `oid` (its first arc
/// being the module arc) resolves to, led by a `0`.
pub open spec fn dcm_path_of(oid: Seq<int>) -> Seq<int> {
    let a = if oid.len() > 1 {
        oid[1]
    } else {
        -1
    };
    let b = if oid.len() > 2 {
        oid[2]
    } else {
        0
    };
    if a == 1 {
        if b == 9999 {
            seq![0, 9, 4, 9, 1, 1]
        } else {
            seq![0, 9, 1, if 1 <= b <= 32 { b } else { 0 }]
        }
    } else if a == 4 {
        if b == 9 {
            seq![0, 9, 4, 9, 1, 1]
        } else {
            seq![0, 9, 4, if b == 1 || b == 3 { b } else { 0 }]
        }
    } else if a == 5 {
        seq![0, 9, 5, if b == 5 { 5 } else { 0 }]
    } else if a == 6 {
        seq![0, 9, 6, if b == 14 || b == 30 { b } else { 0 }]
    } else if a == 9 {
        seq![0, 9, 9]
    } else if a == 10 {
        seq![0, 9, 10]
    } else {
        seq![0, 9]
    }
}

/// The absolute path of the leaf that path `p` resolves to; none where `p`
/// is outside the module and global subtrees of the vendor prefix.
pub open spec fn resolved_path(p: Seq<int>) -> Option<Seq<int>> {
    if !starts_with(p, base()) || p.len() < 10 {
        None
    } else if p[9] == 6 {
        Some(base() + seq![6, 3, 6])
    } else if p[9] == 9 {
        Some(base() + dcm_path_of(p.subrange(9, p.len() as int)).drop_first())
    } else {
        None
    }
}

impl Dcm {
    /// The module leaf for path `oid`, its first arc being the module arc:
    /// the next arc picks the subtree, the one after the leaf.
    pub fn new(oid: &[i64]) -> (r: Self)
        ensures
            dcm_path(r) == dcm_path_of(ints(oid@)),
            device_values(Device::DCM(r)) == zero_values(device_width(Device::DCM(r))),
            fresh_dcm(r),
    {
        let a: i64 = if oid.len() > 1 {
            oid[1]
        } else {
            -1
        };
        let b: i64 = if oid.len() > 2 {
            oid[2]
        } else {
            0
        };
        let r = if a == 1 {
            Dcm::VehCriteria(VehCriteria::new(b))
        } else if a == 4 {
            if b == 9 {
                Dcm::VehCriteria(VehCriteria::new(9999))
            } else {
                Dcm::SiteSetup(SiteSetup::new(b))
            }
        } else if a == 5 {
            Dcm::StudyConfig(StudyConfig::new(b))
        } else if a == 6 {
            Dcm::StudyDataSetup(StudyDataSetup::new(b))
        } else if a == 9 {
            Dcm::RelativeAddrOID(RelativeAddrOID(None))
        } else if a == 10 {
            Dcm::MibVersionNumber(MibVersionNumber { version: Integer { content: 0 } })
        } else {
            Dcm::Unknown
        };
        proof {
            let o = ints(oid@);
            assert(oid@.len() > 1 ==> o[1] == a);
            assert(oid@.len() > 2 ==> o[2] == b);
            assert(dcm_path(r) =~= dcm_path_of(o));
            assert(device_values(Device::DCM(r)) =~= zero_values(device_width(Device::DCM(r))));
        }
        r
    }
}

/// Resolves an absolute path to the leaf it names, with the leaf's value
/// zeroed.
#[verifier::rlimit(40)]
pub fn resolve(p: &[i64]) -> (r: Result<Device, AsnError>)
    ensures
        match resolved_path(ints(p@)) {
            None => r == Err::<Device, AsnError>(AsnError::UnknownOID),
            Some(q) => r matches Ok(d) && device_path(d) == q && device_values(d) == zero_values(
                device_width(d),
            ),
        },
{
    let b = base_path();
    if p.len() < 10 {
        return Err(AsnError::UnknownOID);
    }
    let mut i: usize = 0;
    while i < 9
        invariant
            i <= 9,
            p@.len() >= 10,
            ints(b@) == base(),
            forall|j: int| 0 <= j < i ==> p@[j] as int == base()[j],
        decreases 9 - i,
    {
        assert(ints(b@)[i as int] == b@[i as int] as int);
        if p[i] != b[i] {
            assert(ints(p@).subrange(0, 9)[i as int] != base()[i as int]);
            return Err(AsnError::UnknownOID);
        }
        i += 1;
    }
    assert(ints(p@).subrange(0, 9) =~= base());
    if p[9] == 6 {
        let d = Device::GLOBAL(Date(0));
        assert(device_path(d) =~= base() + seq![6, 3, 6]);
        return Ok(d);
    }
    if p[9] != 9 {
        return Err(AsnError::UnknownOID);
    }
    let rest = copy_tail(p, 9);
    let x = Dcm::new(rest.as_slice());
    assert(ints(rest@) =~= ints(p@).subrange(9, p@.len() as int));
    Ok(Device::DCM(x))
}

/// A copy of `p[from..]`.
fn copy_tail(p: &[i64], from: usize) -> (r: Vec<i64>)
    requires
        from <= p@.len(),
    ensures
        r@ == p@.subrange(from as int, p@.len() as int),
{
    let mut r: Vec<i64> = Vec::new();
    let mut i: usize = from;
    while i < p.len()
        invariant
            from <= i <= p@.len(),
            r@ == p@.subrange(from as int, i as int),
        decreases p@.len() - i,
    {
        r.push(p[i]);
        i += 1;
        assert(r@ =~= p@.subrange(from as int, i as int));
    }
    r
}

/// The display name of each module leaf.
pub open spec fn dcm_name(d: Dcm) -> Seq<char> {
    match d {
        Dcm::VehCriteria(v) => veh_name(v),
        Dcm::SiteSetup(SiteSetup::SiteId(_)) => "SiteId"@,
        Dcm::SiteSetup(SiteSetup::SiteDescription(_)) => "SiteDescription"@,
        Dcm::SiteSetup(_) => "SiteSetup"@,
        Dcm::StudyConfig(StudyConfig::StudyConfigTable(_)) => "StudyConfigTable"@,
        Dcm::StudyConfig(_) => "StudyConfig"@,
        Dcm::StudyDataSetup(StudyDataSetup::PvrStudyConfigTable(_)) => "PvrStudyConfigTable"@,
        Dcm::StudyDataSetup(StudyDataSetup::DataStructureTable(_)) => "DataStructureTable"@,
        Dcm::StudyDataSetup(_) => "StudyDataSetup"@,
        Dcm::RelativeAddrOID(_) => "RelativeAddrOID"@,
        Dcm::MibVersionNumber(_) => "MibVersionNumber"@,
        Dcm::Unknown => "Dcm"@,
    }
}

/// The layout of the vehicle-criteria leaf at arc `a`.
pub open spec fn veh_width_of_arc(a: int) -> Width {
    if a == 1 || a == 2 {
        Width::Signed(4)
    } else if a == 4 || a == 5 || a == 6 || a == 13 || a == 30 {
        Width::Fixed(1)
    } else if a == 7 || a == 8 || a == 9 || a == 10 || a == 12 || a == 14 || a == 16 || a == 26 || a == 32 {
        Width::Fixed(2)
    } else if a == 11 || a == 15 || a == 18 || a == 21 || a == 22 || a == 23 || a == 24 {
        Width::Counted(2)
    } else if a == 17 {
        Width::Counted(1)
    } else if a == 19 || a == 20 || a == 25 {
        Width::Fixed(3)
    } else if a == 27 {
        Width::Fixed(4)
    } else if a == 28 {
        Width::Counted(3)
    } else if a == 29 {
        Width::Signed(2)
    } else {
        Width::Unsized
    }
}

/// The layout of the leaf at absolute path `q`.
pub open spec fn path_width(q: Seq<int>) -> Width {
    if q.len() == 12 && q.subrange(0, 11) == base() + seq![9, 1] {
        veh_width_of_arc(q[11])
    } else if q == base() + seq![9, 4, 9, 1, 1] {
        Width::Fixed(1)
    } else if q == base() + seq![6, 3, 6] {
        Width::Fixed(4)
    } else {
        Width::Unsized
    }
}

/// Every leaf has one of the schema's layouts.
pub proof fn lemma_device_width_ok(d: Device)
    ensures
        device_width(d).ok(),
{
}

/// A leaf's layout is fixed by its path.
pub proof fn lemma_width_of_path(d: Device)
    ensures
        device_width(d) == path_width(device_path(d)),
{
    let q = device_path(d);
    let v = base() + seq![9, 1];
    let lane = base() + seq![9, 4, 9, 1, 1];
    let date = base() + seq![6, 3, 6];
    assert(v[9] == 9 && v[10] == 1 && v.len() == 11);
    assert(lane.len() == 14 && date.len() == 12 && date[9] == 6);
    match d {
        Device::DCM(x) => {
            assert(q[9] == 9);
            match x {
                Dcm::VehCriteria(w) => {
                    if w is NotHere {
                        assert(q =~= lane);
                    } else {
                        assert(q.subrange(0, 11) =~= v);
                        assert(q[11] == veh_arc(w));
                    }
                },
                _ => {
                    if q.len() == 12 {
                        assert(q[10] != 1);
                        assert(q.subrange(0, 11)[10] != v[10]);
                    }
                },
            }
        },
        Device::GLOBAL(_) => {
            assert(q =~= date);
            assert(q.subrange(0, 11)[9] != v[9]);
        },
        _ => {},
    }
}

/// Resolving the path of a leaf of the schema gives that leaf's path back:
/// the registry maps leaves to paths and paths to leaves consistently.
pub proof fn law_resolve_own_path(d: Device)
    requires
        !(d is Unknown),
        !(d is ASC),
        !(d matches Device::DCM(Dcm::SiteSetup(SiteSetup::LogicalIOArrayMapTable))),
    ensures
        resolved_path(device_path(d)) == Some(device_path(d)),
{
    let p = device_path(d);
    assert(p.subrange(0, 9) =~= base());
    match d {
        Device::DCM(x) => {
            let rest = p.subrange(9, p.len() as int);
            assert(base() + dcm_path_of(rest).drop_first() =~= p) by {
                match x {
                    Dcm::VehCriteria(v) => {
                        assert(0 <= veh_arc(v) <= 33);
                    },
                    _ => {},
                }
            }
        },
        _ => {},
    }
}

/// What every leaf offers: its path, its name, and the numbers it holds.
pub trait OID: Sized {
    /// The path that `to_oid` gives.
    spec fn oid_spec(&self) -> Seq<int>;

    fn to_oid(&self) -> (r: Vec<i64>)
        ensures
            ints(r@) == self.oid_spec(),
    ;

    /// The numbers that `get_values` gives.
    spec fn values_spec(&self) -> Seq<int>;

    /// The element width that `len_value` gives; -1 for a leaf without one.
    spec fn len_spec(&self) -> int;

    /// The leaf as a leaf of any subtree.
    fn absolute(self) -> (r: Device)
        ensures
            device_path(r) == self.oid_spec(),
    ;

    /// The name that `get_name` gives.
    spec fn name_spec(&self) -> Seq<char>;

    /// The leaf's display name.
    fn get_name(&self) -> (r: &'static str)
        ensures
            r@ == self.name_spec(),
    ;

    fn get_values(&self) -> (r: Vec<i64>)
        ensures
            ints(r@) == self.values_spec(),
    ;

    fn len_value(&self) -> (r: i32)
        ensures
            r as int == self.len_spec(),
    ;
}

/// The element width of a layout; -1 for none.
pub open spec fn width_len(w: Width) -> int {
    match w {
        Width::Unsized => -1,
        Width::Fixed(n) => n as int,
        Width::Signed(n) => n as int,
        Width::Counted(n) => n as int,
    }
}

/// The numbers a module leaf holds: a record field's values, the version, the
/// bytes of the site texts, or the arcs of the prefix.
pub open spec fn dcm_values(d: Dcm) -> Seq<int> {
    match d {
        Dcm::VehCriteria(v) => veh_values(v),
        Dcm::MibVersionNumber(m) => seq![m.version.content as int],
        Dcm::SiteSetup(SiteSetup::SiteId(x)) => x.id@.map_values(|b: u8| b as int),
        Dcm::SiteSetup(SiteSetup::SiteDescription(x)) => x.description@.map_values(|b: u8| b as int),
        Dcm::RelativeAddrOID(RelativeAddrOID(Some(o))) => ints(o.content@),
        _ => Seq::empty(),
    }
}

pub open spec fn dcm_len(d: Dcm) -> int {
    match d {
        Dcm::VehCriteria(v) => width_len(veh_width(v)),
        Dcm::MibVersionNumber(_) => 2,
        _ => -1,
    }
}

/// The vendor prefix followed by `tail`.
fn base_then(tail: &Vec<i64>) -> (r: Vec<i64>)
    ensures
        ints(r@) == base() + ints(tail@),
{
    let mut r = base_path();
    let ghost b = r@;
    let mut i: usize = 0;
    while i < tail.len()
        invariant
            i <= tail@.len(),
            ints(b) == base(),
            r@ == b + tail@.subrange(0, i as int),
        decreases tail@.len() - i,
    {
        r.push(tail[i]);
        i += 1;
        assert(r@ =~= b + tail@.subrange(0, i as int));
    }
    assert(ints(r@) =~= base() + ints(tail@));
    r
}

/// `[0, 9]` followed by `v[1..]`.
fn module_then(v: &Vec<i64>) -> (r: Vec<i64>)
    requires
        v@.len() >= 1,
    ensures
        ints(r@) == seq![0, 9] + ints(v@).drop_first(),
{
    let mut r: Vec<i64> = vec![0, 9];
    let mut i: usize = 1;
    while i < v.len()
        invariant
            1 <= i <= v@.len(),
            r@ == seq![0i64, 9i64] + v@.subrange(1, i as int),
        decreases v@.len() - i,
    {
        r.push(v[i]);
        i += 1;
        assert(r@ =~= seq![0i64, 9i64] + v@.subrange(1, i as int));
    }
    assert(ints(r@) =~= seq![0, 9] + ints(v@).drop_first());
    r
}

impl OID for Dcm {
    open spec fn oid_spec(&self) -> Seq<int> {
        device_path(Device::DCM(*self))
    }

    open spec fn values_spec(&self) -> Seq<int> {
        dcm_values(*self)
    }

    open spec fn name_spec(&self) -> Seq<char> {
        dcm_name(*self)
    }

    open spec fn len_spec(&self) -> int {
        dcm_len(*self)
    }

    fn to_oid(&self) -> (r: Vec<i64>) {
        let m = self.subtree_path();
        assert(m@.len() == ints(m@).len());
        let tail = copy_from(&m, 1);
        assert(ints(tail@) =~= dcm_path(*self).drop_first());
        base_then(&tail)
    }

    fn absolute(self) -> (r: Device) {
        Device::DCM(self)
    }

    fn get_name(&self) -> &'static str {
        self.name()
    }

    fn get_values(&self) -> (r: Vec<i64>) {
        let r = match self {
            Dcm::VehCriteria(v) => v.get_values(),
            Dcm::MibVersionNumber(m) => vec![m.version.content],
            Dcm::SiteSetup(SiteSetup::SiteId(x)) => widen_bytes(&x.id),
            Dcm::SiteSetup(SiteSetup::SiteDescription(x)) => widen_bytes(&x.description),
            Dcm::RelativeAddrOID(RelativeAddrOID(Some(o))) => crate::oid::leaves::copy_arcs(
                &o.content,
            ),
            _ => Vec::new(),
        };
        assert(ints(r@) =~= dcm_values(*self));
        r
    }

    fn len_value(&self) -> (r: i32) {
        match self {
            Dcm::VehCriteria(v) => v.len_value(),
            Dcm::MibVersionNumber(_) => 2,
            _ => -1,
        }
    }
}

impl Dcm {
    /// The leaf's path below the vendor prefix, led by a `0`.
    pub fn subtree_path(&self) -> (r: Vec<i64>)
        ensures
            ints(r@) == dcm_path(*self),
    {
        let r: Vec<i64> = match self {
            Dcm::VehCriteria(v) => {
                let leaf = v.to_oid();
                assert(ints(leaf@) == veh_path(*v));
                assert(leaf@.len() == ints(leaf@).len());
                module_then(&leaf)
            },
            Dcm::SiteSetup(x) => vec![0, 9, 4, match x {
                SiteSetup::Unknown => 0,
                SiteSetup::SiteId(_) => 1,
                SiteSetup::SiteDescription(_) => 3,
                SiteSetup::LogicalIOArrayMapTable => 9,
            }],
            Dcm::StudyConfig(x) => vec![0, 9, 5, match x {
                StudyConfig::Unknown => 0,
                StudyConfig::StudyConfigTable(_) => 5,
            }],
            Dcm::StudyDataSetup(x) => vec![0, 9, 6, match x {
                StudyDataSetup::Unknown => 0,
                StudyDataSetup::PvrStudyConfigTable(_) => 14,
                StudyDataSetup::DataStructureTable(_) => 30,
            }],
            Dcm::RelativeAddrOID(_) => vec![0, 9, 9],
            Dcm::MibVersionNumber(_) => vec![0, 9, 10],
            Dcm::Unknown => vec![0, 9],
        };
        assert(ints(r@) =~= dcm_path(*self));
        r
    }

    /// The leaf's display name.
    pub fn name(&self) -> (r: &'static str)
        ensures
            r@ == dcm_name(*self),
    {
        match self {
            Dcm::VehCriteria(v) => v.get_name(),
            Dcm::SiteSetup(SiteSetup::SiteId(_)) => "SiteId",
            Dcm::SiteSetup(SiteSetup::SiteDescription(_)) => "SiteDescription",
            Dcm::SiteSetup(_) => "SiteSetup",
            Dcm::StudyConfig(StudyConfig::StudyConfigTable(_)) => "StudyConfigTable",
            Dcm::StudyConfig(_) => "StudyConfig",
            Dcm::StudyDataSetup(StudyDataSetup::PvrStudyConfigTable(_)) => "PvrStudyConfigTable",
            Dcm::StudyDataSetup(StudyDataSetup::DataStructureTable(_)) => "DataStructureTable",
            Dcm::StudyDataSetup(_) => "StudyDataSetup",
            Dcm::RelativeAddrOID(_) => "RelativeAddrOID",
            Dcm::MibVersionNumber(_) => "MibVersionNumber",
            Dcm::Unknown => "Dcm",
        }
    }
}

/// Bytes as numbers.
fn widen_bytes(b: &Vec<u8>) -> (r: Vec<i64>)
    ensures
        ints(r@) == b@.map_values(|x: u8| x as int),
{
    let mut r: Vec<i64> = Vec::new();
    let mut i: usize = 0;
    while i < b.len()
        invariant
            i <= b@.len(),
            r@.len() == i,
            forall|j: int| 0 <= j < i ==> #[trigger] r@[j] as int == b@[j] as int,
        decreases b@.len() - i,
    {
        r.push(b[i] as i64);
        i += 1;
    }
    assert(ints(r@) =~= b@.map_values(|x: u8| x as int));
    r
}

impl OID for Device {
    open spec fn oid_spec(&self) -> Seq<int> {
        device_path(*self)
    }

    open spec fn name_spec(&self) -> Seq<char> {
        match *self {
            Device::DCM(x) => dcm_name(x),
            Device::GLOBAL(_) => "Date"@,
            Device::ASC => "ASC"@,
            Device::Unknown => "Unknown"@,
        }
    }

    open spec fn values_spec(&self) -> Seq<int> {
        match *self {
            Device::DCM(x) => dcm_values(x),
            Device::GLOBAL(d) => seq![d.0 as int],
            _ => Seq::empty(),
        }
    }

    open spec fn len_spec(&self) -> int {
        match *self {
            Device::DCM(x) => dcm_len(x),
            Device::GLOBAL(_) => 4,
            _ => -1,
        }
    }

    fn to_oid(&self) -> (r: Vec<i64>) {
        match self {
            Device::DCM(x) => x.to_oid(),
            Device::GLOBAL(_) => {
                let tail: Vec<i64> = vec![6, 3, 6];
                let r = base_then(&tail);
                assert(ints(r@) =~= device_path(*self));
                r
            },
            _ => {
                let r = base_path();
                r
            },
        }
    }

    fn absolute(self) -> (r: Device) {
        self
    }

    fn get_name(&self) -> &'static str {
        match self {
            Device::DCM(x) => x.get_name(),
            Device::GLOBAL(_) => "Date",
            Device::ASC => "ASC",
            Device::Unknown => "Unknown",
        }
    }

    fn get_values(&self) -> (r: Vec<i64>) {
        let r = match self {
            Device::DCM(x) => x.get_values(),
            Device::GLOBAL(d) => vec![d.0 as i64],
            _ => Vec::new(),
        };
        assert(ints(r@) =~= self.values_spec());
        r
    }

    fn len_value(&self) -> (r: i32) {
        match self {
            Device::DCM(x) => x.len_value(),
            Device::GLOBAL(_) => 4,
            _ => -1,
        }
    }
}

/// The two lists hold the same numbers.
pub fn same_numbers(a: &Vec<i64>, b: &Vec<i64>) -> (r: bool)
    ensures
        r == (ints(a@) == ints(b@)),
{
    if a.len() != b.len() {
        assert(ints(a@).len() != ints(b@).len());
        return false;
    }
    let mut i: usize = 0;
    while i < a.len()
        invariant
            i <= a@.len(),
            a@.len() == b@.len(),
            forall|j: int| 0 <= j < i ==> a@[j] == b@[j],
        decreases a@.len() - i,
    {
        if a[i] != b[i] {
            assert(ints(a@)[i as int] != ints(b@)[i as int]);
            return false;
        }
        i += 1;
    }
    assert(ints(a@) =~= ints(b@));
    true
}

/// A copy of `v[from..]`.
fn copy_from(v: &Vec<i64>, from: usize) -> (r: Vec<i64>)
    requires
        from <= v@.len(),
    ensures
        r@ == v@.subrange(from as int, v@.len() as int),
{
    copy_tail(v.as_slice(), from)
}

impl Device {
    /// The same leaf holding zero values.
    pub fn fresh(&self) -> (r: Device)
        ensures
            device_path(r) == device_path(*self),
            device_width(r) == device_width(*self),
    {
        match self {
            Device::DCM(Dcm::VehCriteria(v)) => Device::DCM(Dcm::VehCriteria(v.fresh())),
            Device::GLOBAL(_) => Device::GLOBAL(Date(0)),
            Device::DCM(Dcm::SiteSetup(x)) => Device::DCM(Dcm::SiteSetup(match x {
                SiteSetup::Unknown => SiteSetup::Unknown,
                SiteSetup::SiteId(_) => SiteSetup::SiteId(SiteId::new()),
                SiteSetup::SiteDescription(_) => SiteSetup::SiteDescription(SiteDescription::new()),
                SiteSetup::LogicalIOArrayMapTable => SiteSetup::LogicalIOArrayMapTable,
            })),
            Device::DCM(Dcm::StudyConfig(x)) => Device::DCM(Dcm::StudyConfig(match x {
                StudyConfig::Unknown => StudyConfig::Unknown,
                StudyConfig::StudyConfigTable(_) => StudyConfig::StudyConfigTable(
                    StudyConfigEntry::new_empty(),
                ),
            })),
            Device::DCM(Dcm::StudyDataSetup(x)) => Device::DCM(Dcm::StudyDataSetup(match x {
                StudyDataSetup::Unknown => StudyDataSetup::Unknown,
                StudyDataSetup::PvrStudyConfigTable(_) => StudyDataSetup::PvrStudyConfigTable(
                    PvrStudyConfigEntry::new_empty(),
                ),
                StudyDataSetup::DataStructureTable(_) => StudyDataSetup::DataStructureTable(
                    DataStructureTable(Vec::new()),
                ),
            })),
            Device::DCM(Dcm::RelativeAddrOID(_)) => Device::DCM(
                Dcm::RelativeAddrOID(RelativeAddrOID(None)),
            ),
            Device::DCM(Dcm::MibVersionNumber(_)) => Device::DCM(
                Dcm::MibVersionNumber(MibVersionNumber { version: Integer { content: 0 } }),
            ),
            Device::DCM(Dcm::Unknown) => Device::DCM(Dcm::Unknown),
            Device::ASC => Device::ASC,
            Device::Unknown => Device::Unknown,
        }
    }

    /// Two leaves are the same leaf holding the same numbers.
    pub fn same_as(&self, other: &Device) -> (r: bool)
        ensures
            r == (device_path(*self) == device_path(*other) && device_values(*self)
                == device_values(*other)),
    {
        let a = self.to_oid();
        let b = other.to_oid();
        let va = self.values();
        let vb = other.values();
        same_numbers(&a, &b) && same_numbers(&va, &vb)
    }

    /// The numbers this leaf holds in a record.
    pub fn values(&self) -> (r: Vec<i64>)
        ensures
            ints(r@) == device_values(*self),
    {
        match self {
            Device::DCM(Dcm::VehCriteria(v)) => v.get_values(),
            Device::GLOBAL(d) => {
                let r: Vec<i64> = vec![d.0 as i64];
                assert(ints(r@) =~= device_values(*self));
                r
            },
            _ => {
                let r: Vec<i64> = Vec::new();
                assert(ints(r@) =~= device_values(*self));
                r
            },
        }
    }

    /// The byte layout of this leaf in a record.
    pub fn width(&self) -> (r: Width)
        ensures
            r == device_width(*self),
            r.ok(),
    {
        match self {
            Device::DCM(Dcm::VehCriteria(v)) => v.width(),
            Device::GLOBAL(_) => Width::Fixed(4),
            _ => Width::Unsized,
        }
    }

    /// Reads this leaf's value from the record blob at `blob[pos..]`, and
    /// gives the position after it; the leaf stays the same leaf.
    pub fn get_value(&mut self, blob: &[u8], pos: usize) -> (r: Result<usize, AsnError>)
        requires
            pos <= blob@.len(),
        ensures
            device_path(*final(self)) == device_path(*old(self)),
            device_width(*final(self)) == device_width(*old(self)),
            (!(*old(self) matches Device::DCM(Dcm::VehCriteria(_))) && !(*old(self) is GLOBAL)) ==> (
            *final(self) == *old(self)),
            match r {
                Ok(np) => {
                    &&& pos <= np <= blob@.len()
                    &&& parse_field(
                        device_width(*old(self)),
                        blob@.subrange(pos as int, blob@.len() as int),
                    ) == Some((device_values(*final(self)), (np - pos) as nat))
                },
                Err(e) => {
                    &&& e == AsnError::TruncatedRecord
                    &&& parse_field(
                        device_width(*old(self)),
                        blob@.subrange(pos as int, blob@.len() as int),
                    ) is None
                },
            },
    {
        match self {
            Device::DCM(Dcm::VehCriteria(v)) => v.get_value(blob, pos),
            Device::GLOBAL(d) => {
                match read_field(Width::Fixed(4), blob, pos) {
                    Ok((vals, np)) => {
                        proof {
                            lemma_field_bytes_of_parse(
                                Width::Fixed(4),
                                blob@.subrange(pos as int, blob@.len() as int),
                            );
                            crate::bytes::reveal_pow256();
                        }
                        assert(ints(vals@)[0] == vals@[0] as int);
                        *d = Date(vals[0] as u32);
                        assert(seq![d.0 as int] =~= ints(vals@));
                        Ok(np)
                    },
                    Err(e) => Err(e),
                }
            },
            _ => {
                Ok(pos)
            },
        }
    }

    /// The bytes of this leaf's value in a record.
    pub fn to_bytes(&self) -> (r: Vec<u8>)
        requires
            writable(device_width(*self), device_values(*self)),
        ensures
            r@ == field_bytes(device_width(*self), device_values(*self)),
    {
        match self {
            Device::DCM(Dcm::VehCriteria(v)) => v.to_bytes(),
            Device::GLOBAL(d) => {
                let vals: Vec<i64> = vec![d.0 as i64];
                assert(ints(vals@) =~= seq![d.0 as int]);
                let mut out: Vec<u8> = Vec::new();
                write_field(Width::Fixed(4), &vals, &mut out);
                assert(out@ =~= field_bytes(device_width(*self), device_values(*self)));
                out
            },
            _ => Vec::new(),
        }
    }
}

/// Resolution of a path to the leaf it names.
pub trait TryIntoOID {
    spec fn path_view(&self) -> Seq<int>;

    fn try_into_oid(&self) -> (r: Result<Device, AsnError>)
        ensures
            match resolved_path(self.path_view()) {
                None => r == Err::<Device, AsnError>(AsnError::UnknownOID),
                Some(q) => r matches Ok(d) && device_path(d) == q,
            },
    ;
}

impl TryIntoOID for Vec<i64> {
    open spec fn path_view(&self) -> Seq<int> {
        ints(self@)
    }

    fn try_into_oid(&self) -> (r: Result<Device, AsnError>) {
        resolve(self.as_slice())
    }
}

impl TryIntoOID for AsnOID {
    open spec fn path_view(&self) -> Seq<int> {
        ints(self.content@)
    }

    fn try_into_oid(&self) -> (r: Result<Device, AsnError>) {
        resolve(self.content.as_slice())
    }
}

} // verus!
