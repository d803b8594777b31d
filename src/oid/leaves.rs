//! The leaves outside the vehicle criteria: site setup, study configuration,
//! study data setup, the relative-address prefix and the MIB version.

use vstd::prelude::*;

use crate::decode::{copy_range, views};
use crate::value::{Application, AsnError, AsnOID, Integer, OctetString, Sequence, Tree, ASN};

verus! {

/// The node that a child of a row stands for, checked to be an integer.
pub fn take_integer(node: ASN) -> (r: Result<Integer, AsnError>)
    ensures
        match node@ {
            Tree::Integer(v) => r == Ok::<Integer, AsnError>(Integer { content: v }),
            _ => r == Err::<Integer, AsnError>(AsnError::TypeMismatch),
        },
{
    match node {
        ASN::Integer(i) => Ok(i),
        _ => Err(AsnError::TypeMismatch),
    }
}

/// The node checked to be an application value.
pub fn take_application(node: ASN) -> (r: Result<Application, AsnError>)
    ensures
        match node@ {
            Tree::Application(b) => r matches Ok(a) && a.content@ == b,
            _ => r == Err::<Application, AsnError>(AsnError::TypeMismatch),
        },
{
    match node {
        ASN::Application(a) => Ok(a),
        _ => Err(AsnError::TypeMismatch),
    }
}

/// The node checked to be an object identifier.
pub fn take_oid(node: ASN) -> (r: Result<AsnOID, AsnError>)
    ensures
        match node@ {
            Tree::OID(a) => r matches Ok(o) && o.content@ == a,
            _ => r == Err::<AsnOID, AsnError>(AsnError::TypeMismatch),
        },
{
    match node {
        ASN::OID(o) => Ok(o),
        _ => Err(AsnError::TypeMismatch),
    }
}

/// The node checked to be an octet string.
pub fn take_octet_string(node: ASN) -> (r: Result<OctetString, AsnError>)
    ensures
        match node@ {
            Tree::OctetString(b) => r matches Ok(o) && o.content@ == b,
            _ => r == Err::<OctetString, AsnError>(AsnError::TypeMismatch),
        },
{
    match node {
        ASN::OctetString(o) => Ok(o),
        _ => Err(AsnError::TypeMismatch),
    }
}

/// The children of a sequence node, checked to be `n` of them.
pub fn take_children(node: ASN, n: usize) -> (r: Result<Vec<ASN>, AsnError>)
    ensures
        match node@ {
            Tree::Sequence(c) => if c.len() == n {
                r matches Ok(v) && views(v@) == c
            } else {
                r == Err::<Vec<ASN>, AsnError>(AsnError::TypeMismatch)
            },
            _ => r == Err::<Vec<ASN>, AsnError>(AsnError::TypeMismatch),
        },
{
    match node {
        ASN::Sequence(q) => {
            let ghost t = ASN::Sequence(q)@;
            proof {
                match t {
                    Tree::Sequence(c) => {
                        assert(c =~= views(q.content@));
                    },
                    _ => {},
                }
            }
            if q.content.len() == n {
                Ok(q.content)
            } else {
                Err(AsnError::TypeMismatch)
            }
        },
        _ => Err(AsnError::TypeMismatch),
    }
}

/// The site identifier text written where the value is not an octet string.
pub open spec fn unknown_site_id() -> Seq<u8> {
    seq![83u8, 105u8, 116u8, 101u8, 73u8, 100u8, 32u8, 85u8, 110u8, 107u8, 110u8, 111u8, 119u8, 110u8]
}

/// The site description written where the value is not an octet string.
pub open spec fn unknown_site_description() -> Seq<u8> {
    seq![68u8, 101u8, 115u8, 99u8, 114u8, 105u8, 112u8, 116u8, 105u8, 111u8, 110u8, 32u8, 85u8, 110u8, 107u8, 110u8, 111u8, 119u8, 110u8]
}

/// The site identifier, as the bytes of its text.
#[derive(Clone, Debug, PartialEq, Eq)]
pub struct SiteId {
    pub id: Vec<u8>,
}

impl SiteId {
    /// An empty identifier.
    pub fn new() -> (r: Self)
        ensures
            r.id@.len() == 0,
    {
        SiteId { id: Vec::new() }
    }

    /// Takes the identifier from an octet-string node; any other node gives
    /// a fixed placeholder text.
    pub fn set(&mut self, id: ASN)
        ensures
            final(self).id@ == match id@ {
                Tree::OctetString(b) => b,
                _ => unknown_site_id(),
            },
    {
        match id {
            ASN::OctetString(o) => {
                self.id = o.content;
            },
            _ => {
                self.id = placeholder_site_id();
            },
        }
    }
}

/// The site description, as the bytes of its text.
#[derive(Clone, Debug, PartialEq, Eq)]
pub struct SiteDescription {
    pub description: Vec<u8>,
}

impl SiteDescription {
    /// An empty description.
    pub fn new() -> (r: Self)
        ensures
            r.description@.len() == 0,
    {
        SiteDescription { description: Vec::new() }
    }

    /// Takes the description from an octet-string node; any other node gives
    /// a fixed placeholder text.
    pub fn set(&mut self, description: ASN)
        ensures
            final(self).description@ == match description@ {
                Tree::OctetString(b) => b,
                _ => unknown_site_description(),
            },
    {
        match description {
            ASN::OctetString(o) => {
                self.description = o.content;
            },
            _ => {
                self.description = placeholder_site_description();
            },
        }
    }
}

fn placeholder_site_id() -> (r: Vec<u8>)
    ensures
        r@ == unknown_site_id(),
{
    let r: Vec<u8> = vec![83u8, 105u8, 116u8, 101u8, 73u8, 100u8, 32u8, 85u8, 110u8, 107u8, 110u8, 111u8, 119u8, 110u8];
    assert(r@ =~= unknown_site_id());
    r
}

fn placeholder_site_description() -> (r: Vec<u8>)
    ensures
        r@ == unknown_site_description(),
{
    let r: Vec<u8> = vec![68u8, 101u8, 115u8, 99u8, 114u8, 105u8, 112u8, 116u8, 105u8, 111u8, 110u8, 32u8, 85u8, 110u8, 107u8, 110u8, 111u8, 119u8, 110u8];
    assert(r@ =~= unknown_site_description());
    r
}

/// A row of the study configuration table.
#[derive(Clone, Debug, PartialEq, Eq)]
pub struct StudyConfigEntry {
    pub sc_study_num: Integer,
    pub study_type: Integer,
    pub start_type: Integer,
    pub start_date_time: Application,
    pub end_type: Integer,
    pub end_date_time: Application,
    pub sc_file_study_index: Integer,
    pub study_config_row_admin: Integer,
}

/// The children have the kinds of a StudyConfigEntry row, in order.
pub open spec fn is_study_config_row(c: Seq<Tree>) -> bool {
    &&& c.len() == 8
    &&& c[0] is Integer
    &&& c[1] is Integer
    &&& c[2] is Integer
    &&& c[3] is Application
    &&& c[4] is Integer
    &&& c[5] is Application
    &&& c[6] is Integer
    &&& c[7] is Integer
}

impl StudyConfigEntry {
    /// The row's fields as nodes, in order.
    pub open spec fn row_view(&self) -> Seq<Tree> {
        seq![
            Tree::Integer(self.sc_study_num.content),
            Tree::Integer(self.study_type.content),
            Tree::Integer(self.start_type.content),
            Tree::Application(self.start_date_time.content@),
            Tree::Integer(self.end_type.content),
            Tree::Application(self.end_date_time.content@),
            Tree::Integer(self.sc_file_study_index.content),
            Tree::Integer(self.study_config_row_admin.content)
        ]
    }

    /// A row of zeros and empty values.
    pub fn new_empty() -> (r: Self)
        ensures

            r.sc_study_num.content == 0,
            r.study_type.content == 0,
            r.start_type.content == 0,
            r.start_date_time.content@.len() == 0,
            r.end_type.content == 0,
            r.end_date_time.content@.len() == 0,
            r.sc_file_study_index.content == 0,
            r.study_config_row_admin.content == 0,
    {
        StudyConfigEntry {
            sc_study_num: Integer { content: 0 },
            study_type: Integer { content: 0 },
            start_type: Integer { content: 0 },
            start_date_time: Application { content: Vec::new() },
            end_type: Integer { content: 0 },
            end_date_time: Application { content: Vec::new() },
            sc_file_study_index: Integer { content: 0 },
            study_config_row_admin: Integer { content: 0 },
        }
    }

    /// Reads a row from a sequence node; a node of any other shape is a
    /// type mismatch.
    pub fn from_node(values: ASN) -> (r: Result<Self, AsnError>)
        ensures
            match values@ {
                Tree::Sequence(c) => if is_study_config_row(c) {
                    r matches Ok(e) && e.row_view() == c
                } else {
                    r == Err::<Self, AsnError>(AsnError::TypeMismatch)
                },
                _ => r == Err::<Self, AsnError>(AsnError::TypeMismatch),
            },
    {
        let ghost t = values@;
        let mut c = match take_children(values, 8) {
            Ok(c) => c,
            Err(e) => {
                return Err(e);
            },
        };
        let ghost cv = views(c@);
        let n7 = c.pop().unwrap();
        let n6 = c.pop().unwrap();
        let n5 = c.pop().unwrap();
        let n4 = c.pop().unwrap();
        let n3 = c.pop().unwrap();
        let n2 = c.pop().unwrap();
        let n1 = c.pop().unwrap();
        let n0 = c.pop().unwrap();
        proof {
            assert(n0@ == cv[0]);
            assert(n1@ == cv[1]);
            assert(n2@ == cv[2]);
            assert(n3@ == cv[3]);
            assert(n4@ == cv[4]);
            assert(n5@ == cv[5]);
            assert(n6@ == cv[6]);
            assert(n7@ == cv[7]);
        }
        let sc_study_num = match take_integer(n0) {
            Ok(x) => x,
            Err(e) => {
                return Err(e);
            },
        };
        let study_type = match take_integer(n1) {
            Ok(x) => x,
            Err(e) => {
                return Err(e);
            },
        };
        let start_type = match take_integer(n2) {
            Ok(x) => x,
            Err(e) => {
                return Err(e);
            },
        };
        let start_date_time = match take_application(n3) {
            Ok(x) => x,
            Err(e) => {
                return Err(e);
            },
        };
        let end_type = match take_integer(n4) {
            Ok(x) => x,
            Err(e) => {
                return Err(e);
            },
        };
        let end_date_time = match take_application(n5) {
            Ok(x) => x,
            Err(e) => {
                return Err(e);
            },
        };
        let sc_file_study_index = match take_integer(n6) {
            Ok(x) => x,
            Err(e) => {
                return Err(e);
            },
        };
        let study_config_row_admin = match take_integer(n7) {
            Ok(x) => x,
            Err(e) => {
                return Err(e);
            },
        };
        let r = StudyConfigEntry { sc_study_num, study_type, start_type, start_date_time, end_type, end_date_time, sc_file_study_index, study_config_row_admin };
        assert(r.row_view() =~= cv);
        Ok(r)
    }

    /// Takes the row from a sequence node; on a type mismatch the row stays
    /// as it was.
    pub fn set(&mut self, values: ASN) -> (r: Result<(), AsnError>)
        ensures
            match values@ {
                Tree::Sequence(c) => if is_study_config_row(c) {
                    r is Ok && final(self).row_view() == c
                } else {
                    r == Err::<(), AsnError>(AsnError::TypeMismatch) && *final(self) == *old(self)
                },
                _ => r == Err::<(), AsnError>(AsnError::TypeMismatch) && *final(self) == *old(self),
            },
    {
        match Self::from_node(values) {
            Ok(e) => {
                *self = e;
                Ok(())
            },
            Err(e) => Err(e),
        }
    }

    /// The row as a sequence node.
    pub fn to_sequence(&self) -> (r: Sequence)
        ensures
            ASN::Sequence(r)@ == Tree::Sequence(self.row_view()),
    {
        let mut content: Vec<ASN> = Vec::new();
        content.push(ASN::Integer(Integer { content: self.sc_study_num.content }));
        content.push(ASN::Integer(Integer { content: self.study_type.content }));
        content.push(ASN::Integer(Integer { content: self.start_type.content }));
        content.push(ASN::Application(Application { content: copy_bytes(&self.start_date_time.content) }));
        content.push(ASN::Integer(Integer { content: self.end_type.content }));
        content.push(ASN::Application(Application { content: copy_bytes(&self.end_date_time.content) }));
        content.push(ASN::Integer(Integer { content: self.sc_file_study_index.content }));
        content.push(ASN::Integer(Integer { content: self.study_config_row_admin.content }));
        proof {
            assert(content@[0]@ == self.row_view()[0]);
            assert(content@[1]@ == self.row_view()[1]);
            assert(content@[2]@ == self.row_view()[2]);
            assert(content@[3]@ == self.row_view()[3]);
            assert(content@[4]@ == self.row_view()[4]);
            assert(content@[5]@ == self.row_view()[5]);
            assert(content@[6]@ == self.row_view()[6]);
            assert(content@[7]@ == self.row_view()[7]);
        }
        let r = Sequence { content };
        proof {
            match ASN::Sequence(r)@ {
                Tree::Sequence(v) => {
                    assert(v =~= self.row_view());
                },
                _ => {},
            }
        }
        r
    }
}

/// A row of the per-vehicle-record configuration table: which field stands at which place in a record.
#[derive(Clone, Debug, PartialEq, Eq)]
pub struct PvrStudyConfigEntry {
    pub psc_study_num: Integer,
    pub pvr_study_index: Integer,
    pub pvr_param: AsnOID,
    pub pvr_study_config_row_admin: Integer,
}

/// The children have the kinds of a PvrStudyConfigEntry row, in order.
pub open spec fn is_pvr_row(c: Seq<Tree>) -> bool {
    &&& c.len() == 4
    &&& c[0] is Integer
    &&& c[1] is Integer
    &&& c[2] is OID
    &&& c[3] is Integer
}

impl PvrStudyConfigEntry {
    /// The row's fields as nodes, in order.
    pub open spec fn row_view(&self) -> Seq<Tree> {
        seq![
            Tree::Integer(self.psc_study_num.content),
            Tree::Integer(self.pvr_study_index.content),
            Tree::OID(self.pvr_param.content@),
            Tree::Integer(self.pvr_study_config_row_admin.content)
        ]
    }

    /// A row of zeros and empty values.
    pub fn new_empty() -> (r: Self)
        ensures

            r.psc_study_num.content == 0,
            r.pvr_study_index.content == 0,
            r.pvr_param.content@.len() == 0,
            r.pvr_study_config_row_admin.content == 0,
    {
        PvrStudyConfigEntry {
            psc_study_num: Integer { content: 0 },
            pvr_study_index: Integer { content: 0 },
            pvr_param: AsnOID { content: Vec::new() },
            pvr_study_config_row_admin: Integer { content: 0 },
        }
    }

    /// Reads a row from a sequence node; a node of any other shape is a
    /// type mismatch.
    pub fn from_node(values: ASN) -> (r: Result<Self, AsnError>)
        ensures
            match values@ {
                Tree::Sequence(c) => if is_pvr_row(c) {
                    r matches Ok(e) && e.row_view() == c
                } else {
                    r == Err::<Self, AsnError>(AsnError::TypeMismatch)
                },
                _ => r == Err::<Self, AsnError>(AsnError::TypeMismatch),
            },
    {
        let ghost t = values@;
        let mut c = match take_children(values, 4) {
            Ok(c) => c,
            Err(e) => {
                return Err(e);
            },
        };
        let ghost cv = views(c@);
        let n3 = c.pop().unwrap();
        let n2 = c.pop().unwrap();
        let n1 = c.pop().unwrap();
        let n0 = c.pop().unwrap();
        proof {
            assert(n0@ == cv[0]);
            assert(n1@ == cv[1]);
            assert(n2@ == cv[2]);
            assert(n3@ == cv[3]);
        }
        let psc_study_num = match take_integer(n0) {
            Ok(x) => x,
            Err(e) => {
                return Err(e);
            },
        };
        let pvr_study_index = match take_integer(n1) {
            Ok(x) => x,
            Err(e) => {
                return Err(e);
            },
        };
        let pvr_param = match take_oid(n2) {
            Ok(x) => x,
            Err(e) => {
                return Err(e);
            },
        };
        let pvr_study_config_row_admin = match take_integer(n3) {
            Ok(x) => x,
            Err(e) => {
                return Err(e);
            },
        };
        let r = PvrStudyConfigEntry { psc_study_num, pvr_study_index, pvr_param, pvr_study_config_row_admin };
        assert(r.row_view() =~= cv);
        Ok(r)
    }

    /// Takes the row from a sequence node; on a type mismatch the row stays
    /// as it was.
    pub fn set(&mut self, values: ASN) -> (r: Result<(), AsnError>)
        ensures
            match values@ {
                Tree::Sequence(c) => if is_pvr_row(c) {
                    r is Ok && final(self).row_view() == c
                } else {
                    r == Err::<(), AsnError>(AsnError::TypeMismatch) && *final(self) == *old(self)
                },
                _ => r == Err::<(), AsnError>(AsnError::TypeMismatch) && *final(self) == *old(self),
            },
    {
        match Self::from_node(values) {
            Ok(e) => {
                *self = e;
                Ok(())
            },
            Err(e) => Err(e),
        }
    }

    /// The row as a sequence node.
    pub fn to_sequence(&self) -> (r: Sequence)
        ensures
            ASN::Sequence(r)@ == Tree::Sequence(self.row_view()),
    {
        let mut content: Vec<ASN> = Vec::new();
        content.push(ASN::Integer(Integer { content: self.psc_study_num.content }));
        content.push(ASN::Integer(Integer { content: self.pvr_study_index.content }));
        content.push(ASN::OID(AsnOID { content: copy_arcs(&self.pvr_param.content) }));
        content.push(ASN::Integer(Integer { content: self.pvr_study_config_row_admin.content }));
        proof {
            assert(content@[0]@ == self.row_view()[0]);
            assert(content@[1]@ == self.row_view()[1]);
            assert(content@[2]@ == self.row_view()[2]);
            assert(content@[3]@ == self.row_view()[3]);
        }
        let r = Sequence { content };
        proof {
            match ASN::Sequence(r)@ {
                Tree::Sequence(v) => {
                    assert(v =~= self.row_view());
                },
                _ => {},
            }
        }
        r
    }
}

/// A row of the data structure table: one study's records as a blob.
#[derive(Clone, Debug, PartialEq, Eq)]
pub struct DataStructureEntry {
    pub ds_study_num: Integer,
    pub data_struc_index: Integer,
    pub start_time: Application,
    pub end_time: Application,
    pub data_num_records: Integer,
    pub data_encoding: Integer,
    pub data: OctetString,
}

/// The children have the kinds of a DataStructureEntry row, in order.
pub open spec fn is_data_structure_row(c: Seq<Tree>) -> bool {
    &&& c.len() == 7
    &&& c[0] is Integer
    &&& c[1] is Integer
    &&& c[2] is Application
    &&& c[3] is Application
    &&& c[4] is Integer
    &&& c[5] is Integer
    &&& c[6] is OctetString
}

impl DataStructureEntry {
    /// The row's fields as nodes, in order.
    pub open spec fn row_view(&self) -> Seq<Tree> {
        seq![
            Tree::Integer(self.ds_study_num.content),
            Tree::Integer(self.data_struc_index.content),
            Tree::Application(self.start_time.content@),
            Tree::Application(self.end_time.content@),
            Tree::Integer(self.data_num_records.content),
            Tree::Integer(self.data_encoding.content),
            Tree::OctetString(self.data.content@)
        ]
    }

    /// A row of zeros and empty values.
    pub fn new_empty() -> (r: Self)
        ensures

            r.ds_study_num.content == 0,
            r.data_struc_index.content == 0,
            r.start_time.content@.len() == 0,
            r.end_time.content@.len() == 0,
            r.data_num_records.content == 0,
            r.data_encoding.content == 0,
            r.data.content@.len() == 0,
    {
        DataStructureEntry {
            ds_study_num: Integer { content: 0 },
            data_struc_index: Integer { content: 0 },
            start_time: Application { content: Vec::new() },
            end_time: Application { content: Vec::new() },
            data_num_records: Integer { content: 0 },
            data_encoding: Integer { content: 0 },
            data: OctetString { content: Vec::new() },
        }
    }

    /// Reads a row from a sequence node; a node of any other shape is a
    /// type mismatch.
    pub fn from_node(values: ASN) -> (r: Result<Self, AsnError>)
        ensures
            match values@ {
                Tree::Sequence(c) => if is_data_structure_row(c) {
                    r matches Ok(e) && e.row_view() == c
                } else {
                    r == Err::<Self, AsnError>(AsnError::TypeMismatch)
                },
                _ => r == Err::<Self, AsnError>(AsnError::TypeMismatch),
            },
    {
        let ghost t = values@;
        let mut c = match take_children(values, 7) {
            Ok(c) => c,
            Err(e) => {
                return Err(e);
            },
        };
        let ghost cv = views(c@);
        let n6 = c.pop().unwrap();
        let n5 = c.pop().unwrap();
        let n4 = c.pop().unwrap();
        let n3 = c.pop().unwrap();
        let n2 = c.pop().unwrap();
        let n1 = c.pop().unwrap();
        let n0 = c.pop().unwrap();
        proof {
            assert(n0@ == cv[0]);
            assert(n1@ == cv[1]);
            assert(n2@ == cv[2]);
            assert(n3@ == cv[3]);
            assert(n4@ == cv[4]);
            assert(n5@ == cv[5]);
            assert(n6@ == cv[6]);
        }
        let ds_study_num = match take_integer(n0) {
            Ok(x) => x,
            Err(e) => {
                return Err(e);
            },
        };
        let data_struc_index = match take_integer(n1) {
            Ok(x) => x,
            Err(e) => {
                return Err(e);
            },
        };
        let start_time = match take_application(n2) {
            Ok(x) => x,
            Err(e) => {
                return Err(e);
            },
        };
        let end_time = match take_application(n3) {
            Ok(x) => x,
            Err(e) => {
                return Err(e);
            },
        };
        let data_num_records = match take_integer(n4) {
            Ok(x) => x,
            Err(e) => {
                return Err(e);
            },
        };
        let data_encoding = match take_integer(n5) {
            Ok(x) => x,
            Err(e) => {
                return Err(e);
            },
        };
        let data = match take_octet_string(n6) {
            Ok(x) => x,
            Err(e) => {
                return Err(e);
            },
        };
        let r = DataStructureEntry { ds_study_num, data_struc_index, start_time, end_time, data_num_records, data_encoding, data };
        assert(r.row_view() =~= cv);
        Ok(r)
    }

    /// Takes the row from the first child of a sequence node; on a type
    /// mismatch the row stays as it was.
    pub fn set(&mut self, values: ASN) -> (r: Result<(), AsnError>)
        ensures
            match values@ {
                Tree::Sequence(c) => if c.len() > 0 && c[0] is Sequence && is_data_structure_row(
                    c[0]->Sequence_0,
                ) {
                    r is Ok && final(self).row_view() == c[0]->Sequence_0
                } else {
                    r == Err::<(), AsnError>(AsnError::TypeMismatch) && *final(self) == *old(self)
                },
                _ => r == Err::<(), AsnError>(AsnError::TypeMismatch) && *final(self) == *old(self),
            },
    {
        let ghost t = values@;
        match values {
            ASN::Sequence(q) => {
                proof {
                    match t {
                        Tree::Sequence(c) => {
                            assert(c =~= views(q.content@));
                        },
                        _ => {},
                    }
                }
                let mut c = q.content;
                if c.len() == 0 {
                    return Err(AsnError::TypeMismatch);
                }
                let first = c.remove(0);
                match Self::from_node(first) {
                    Ok(e) => {
                        *self = e;
                        Ok(())
                    },
                    Err(e) => Err(e),
                }
            },
            _ => Err(AsnError::TypeMismatch),
        }
    }

    /// The row as a sequence node.
    pub fn to_sequence(&self) -> (r: Sequence)
        ensures
            ASN::Sequence(r)@ == Tree::Sequence(self.row_view()),
    {
        let mut content: Vec<ASN> = Vec::new();
        content.push(ASN::Integer(Integer { content: self.ds_study_num.content }));
        content.push(ASN::Integer(Integer { content: self.data_struc_index.content }));
        content.push(ASN::Application(Application { content: copy_bytes(&self.start_time.content) }));
        content.push(ASN::Application(Application { content: copy_bytes(&self.end_time.content) }));
        content.push(ASN::Integer(Integer { content: self.data_num_records.content }));
        content.push(ASN::Integer(Integer { content: self.data_encoding.content }));
        content.push(ASN::OctetString(OctetString { content: copy_bytes(&self.data.content) }));
        proof {
            assert(content@[0]@ == self.row_view()[0]);
            assert(content@[1]@ == self.row_view()[1]);
            assert(content@[2]@ == self.row_view()[2]);
            assert(content@[3]@ == self.row_view()[3]);
            assert(content@[4]@ == self.row_view()[4]);
            assert(content@[5]@ == self.row_view()[5]);
            assert(content@[6]@ == self.row_view()[6]);
        }
        let r = Sequence { content };
        proof {
            match ASN::Sequence(r)@ {
                Tree::Sequence(v) => {
                    assert(v =~= self.row_view());
                },
                _ => {},
            }
        }
        r
    }
}

impl PvrStudyConfigEntry {
    /// The place in a record of the field this row describes.
    pub fn index(&self) -> (r: i64)
        ensures
            r == self.pvr_study_index.content,
    {
        self.pvr_study_index.content
    }

    /// The path of the field this row describes.
    pub fn param(&self) -> (r: &AsnOID)
        ensures
            *r == self.pvr_param,
    {
        &self.pvr_param
    }
}

impl DataStructureEntry {
    /// Reads a row from a sequence node of the row's kinds.
    pub fn new(values: ASN) -> (r: Result<Self, AsnError>)
        ensures
            match values@ {
                Tree::Sequence(c) => if is_data_structure_row(c) {
                    r matches Ok(e) && e.row_view() == c
                } else {
                    r == Err::<Self, AsnError>(AsnError::TypeMismatch)
                },
                _ => r == Err::<Self, AsnError>(AsnError::TypeMismatch),
            },
    {
        Self::from_node(values)
    }

    /// The row's study number.
    pub fn study_num(&self) -> (r: Integer)
        ensures
            r == self.ds_study_num,
    {
        self.ds_study_num
    }

    /// The row's index in the table.
    pub fn index(&self) -> (r: Integer)
        ensures
            r == self.data_struc_index,
    {
        self.data_struc_index
    }

    /// When the study started.
    pub fn start(&self) -> (r: &Application)
        ensures
            *r == self.start_time,
    {
        &self.start_time
    }

    /// When the study ended.
    pub fn end(&self) -> (r: &Application)
        ensures
            *r == self.end_time,
    {
        &self.end_time
    }

    /// How many records the blob holds.
    pub fn records(&self) -> (r: Integer)
        ensures
            r == self.data_num_records,
    {
        self.data_num_records
    }

    /// The blob's encoding code.
    pub fn encoding(&self) -> (r: Integer)
        ensures
            r == self.data_encoding,
    {
        self.data_encoding
    }
}

/// A copy of a byte vector.
pub fn copy_bytes(v: &Vec<u8>) -> (r: Vec<u8>)
    ensures
        r@ == v@,
{
    let r = copy_range(v.as_slice(), 0, v.len());
    assert(v@.subrange(0, v@.len() as int) =~= v@);
    r
}

/// A copy of a path.
pub fn copy_arcs(v: &Vec<i64>) -> (r: Vec<i64>)
    ensures
        r@ == v@,
{
    let mut r: Vec<i64> = Vec::new();
    let mut i: usize = 0;
    while i < v.len()
        invariant
            i <= v@.len(),
            r@ == v@.subrange(0, i as int),
        decreases v@.len() - i,
    {
        r.push(v[i]);
        i += 1;
        assert(r@ =~= v@.subrange(0, i as int));
    }
    assert(r@ =~= v@);
    r
}

} // verus!
