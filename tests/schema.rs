use asn_ber::dcm::{DCMHeader, DCM};
use asn_ber::oid::field::{read_field, write_field, Width};
use asn_ber::oid::leaves::{DataStructureEntry, PvrStudyConfigEntry, SiteId};
use asn_ber::oid::registry::{resolve, Dcm, Device, RelativeAddrOID, TryIntoOID, OID};
use asn_ber::oid::veh_criteria::VehCriteria;
use asn_ber::records::{pack_records, slice_records};
use asn_ber::decode::decode;
use asn_ber::value::{Application, AsnError, AsnOID, Integer, OctetString, Sequence, StructASN, ASN};

const BASE: [i64; 9] = [1, 3, 6, 1, 4, 1, 1206, 4, 2];

fn path(tail: &[i64]) -> Vec<i64> {
    let mut p = BASE.to_vec();
    p.extend_from_slice(tail);
    p
}

fn veh(arc: i64) -> Device {
    Device::DCM(Dcm::VehCriteria(VehCriteria::new(arc)))
}

#[test]
fn relative_path_expands_and_compresses() {
    let mut h = DCMHeader::empty();
    h.relative = RelativeAddrOID(Some(AsnOID::new(vec![1, 3, 6, 1, 4, 1, 1206, 4])));
    let mut p = AsnOID::new(vec![0, 9, 1]);
    h.get_absolute(&mut p);
    assert_eq!(p.content, vec![1, 3, 6, 1, 4, 1, 1206, 4, 9, 1]);
    assert_eq!(h.to_relative(&p.content), vec![0, 9, 1]);
    assert_eq!(h.to_relative(&vec![1, 2, 3]), vec![1, 2, 3]);
}

#[test]
fn without_prefix_paths_stay() {
    let h = DCMHeader::empty();
    let mut p = AsnOID::new(vec![0, 9, 1]);
    h.get_absolute(&mut p);
    assert_eq!(p.content, vec![0, 9, 1]);
}

#[test]
fn slicing_two_records() {
    let kinds = vec![veh(6), veh(11)];
    let blob = vec![0x01, 0x01, 0x03, 0x04, 0x02, 0x01, 0xAA, 0xBB];
    let recs = slice_records(&kinds, &blob).unwrap();
    assert_eq!(recs.len(), 2);
    assert_eq!(recs[0][0], veh_class(1));
    assert_eq!(recs[0][1], Device::DCM(Dcm::VehCriteria(VehCriteria::AxleSpacing(vec![0x0304]))));
    assert_eq!(recs[1][0], veh_class(2));
    assert_eq!(recs[1][1], Device::DCM(Dcm::VehCriteria(VehCriteria::AxleSpacing(vec![0xAABB]))));
    assert_eq!(pack_records(&recs), blob);
}

fn veh_class(c: u8) -> Device {
    Device::DCM(Dcm::VehCriteria(VehCriteria::VehicleClass(c)))
}

#[test]
fn slicing_one_record_with_two_elements() {
    let kinds = vec![veh(6), veh(11)];
    let blob = vec![0x01, 0x02, 0x03, 0x04, 0xAA, 0xBB];
    let recs = slice_records(&kinds, &blob).unwrap();
    assert_eq!(recs.len(), 1);
    assert_eq!(
        recs[0][1],
        Device::DCM(Dcm::VehCriteria(VehCriteria::AxleSpacing(vec![0x0304, 0xAABB])))
    );
    assert_eq!(pack_records(&recs), blob);
}

#[test]
fn blob_ending_inside_a_field_is_truncated() {
    let kinds = vec![veh(6), veh(11)];
    assert_eq!(slice_records(&kinds, &[0x01, 0x02, 0x03]), Err(AsnError::TruncatedRecord));
    let bare = vec![veh(3)];
    assert_eq!(slice_records(&bare, &[0x01]), Err(AsnError::TruncatedRecord));
}

#[test]
fn field_widths() {
    let (v, np) = read_field(Width::Signed(2), &[0xFF, 0xFE], 0).unwrap();
    assert_eq!((v, np), (vec![-2], 2));
    let (v, np) = read_field(Width::Fixed(3), &[0x00, 0x01, 0x02, 0x09], 0).unwrap();
    assert_eq!((v, np), (vec![0x0102], 3));
    let mut out = Vec::new();
    write_field(Width::Signed(4), &vec![-1], &mut out);
    assert_eq!(out, vec![0xFF, 0xFF, 0xFF, 0xFF]);
    let mut out = Vec::new();
    write_field(Width::Counted(3), &vec![1, 0x010203], &mut out);
    assert_eq!(out, vec![2, 0, 0, 1, 1, 2, 3]);
}

#[test]
fn leaf_value_reads_and_writes() {
    let mut gap = VehCriteria::new(19);
    assert_eq!(gap.get_value(&[0x01, 0x02, 0x03], 0), Ok(3));
    assert_eq!(gap, VehCriteria::VehicleGap(0x010203));
    assert_eq!(gap.to_bytes(), vec![0x01, 0x02, 0x03]);
    let mut acc = VehCriteria::new(29);
    assert_eq!(acc.get_value(&[0x80, 0x00], 0), Ok(2));
    assert_eq!(acc, VehCriteria::VehicleAcceleration(-32768));
    assert_eq!(VehCriteria::new(9999), VehCriteria::NotHere(0));
    assert_eq!(VehCriteria::new(77), VehCriteria::Unknown);
    assert_eq!(VehCriteria::new(11).len_value(), 2);
    assert_eq!(VehCriteria::new(3).len_value(), -1);
    assert_eq!(VehCriteria::new(8).get_name(), "VehicleLength");
}

#[test]
fn registry_resolves_paths() {
    assert_eq!(resolve(&path(&[9, 1, 8])), Ok(veh(8)));
    assert_eq!(resolve(&path(&[9, 4, 9, 1, 1])), Ok(veh(9999)));
    assert_eq!(resolve(&path(&[7])), Err(AsnError::UnknownOID));
    assert_eq!(resolve(&[1, 2, 3]), Err(AsnError::UnknownOID));
    let d = path(&[9, 10]).try_into_oid().unwrap();
    assert_eq!(d.to_oid(), path(&[9, 10]));
    assert_eq!(veh(7).to_oid(), path(&[9, 1, 7]));
    assert_eq!(veh(9999).to_oid(), path(&[9, 4, 9, 1, 1]));
    assert_eq!(resolve(&path(&[6, 3, 6])).unwrap().to_oid(), path(&[6, 3, 6]));
}

fn pvr_row(index: i64, param: Vec<i64>) -> ASN {
    ASN::Sequence(Sequence {
        content: vec![
            ASN::Integer(Integer::new(1)),
            ASN::Integer(Integer::new(index)),
            ASN::OID(AsnOID::new(param)),
            ASN::Integer(Integer::new(1)),
        ],
    })
}

#[test]
fn header_passes_over_unknown_entries() {
    let mut h = DCMHeader::empty();
    let before = h.clone();
    assert_eq!(h.add(AsnOID::new(path(&[9, 77, 1])), Some(ASN::Integer(Integer::new(3)))), Ok(()));
    assert_eq!(h, before);
    assert_eq!(h.add(AsnOID::new(vec![2, 5, 4]), None), Ok(()));
    assert_eq!(h, before);
    let entries = Sequence {
        content: vec![
            ASN::OID(AsnOID::new(vec![1, 3, 6, 1, 4, 1, 9999, 1])),
            ASN::Integer(Integer::new(5)),
            ASN::OID(AsnOID::new(path(&[9, 4, 1]))),
            ASN::OctetString(OctetString::new(b"511".to_vec())),
        ],
    };
    let header = DCMHeader::new(Sequence { content: vec![ASN::Sequence(entries)] }).unwrap();
    assert_eq!(header.site_id.id, b"511".to_vec());
}

#[test]
fn header_field_table_in_index_order() {
    let mut h = DCMHeader::empty();
    h.add(AsnOID::new(path(&[9, 6, 14])), Some(pvr_row(2, path(&[9, 1, 11])))).unwrap();
    h.add(AsnOID::new(path(&[9, 6, 14])), Some(pvr_row(1, path(&[9, 1, 6])))).unwrap();
    let kinds = h.field_table().unwrap();
    assert_eq!(kinds, vec![veh(6), veh(11)]);
    assert_eq!(h.get_content_position(&AsnOID::new(path(&[9, 1, 11]))), Some(2));
    assert_eq!(h.get_content_position(&AsnOID::new(path(&[9, 1, 7]))), None);
    let bad = h.add(AsnOID::new(path(&[9, 6, 14])), Some(ASN::Integer(Integer::new(0))));
    assert_eq!(bad, Err(AsnError::TypeMismatch));
}

#[test]
fn missing_field_row_is_reported() {
    let mut h = DCMHeader::empty();
    h.add(AsnOID::new(path(&[9, 6, 14])), Some(pvr_row(2, path(&[9, 1, 11])))).unwrap();
    assert_eq!(h.field_table(), Err(AsnError::MissingRequiredField));
}

#[test]
fn site_fields_from_other_nodes_get_placeholders() {
    let mut s = SiteId::new();
    s.set(ASN::Integer(Integer::new(1)));
    assert_eq!(s.id, b"SiteId Unknown".to_vec());
    let e = PvrStudyConfigEntry::from_node(ASN::Integer(Integer::new(1)));
    assert_eq!(e, Err(AsnError::TypeMismatch));
}

#[test]
fn site_id_is_cut_to_forty_bytes() {
    let mut d = DCM::new();
    d.set_site_id(&"x".repeat(50));
    assert_eq!(d.header.site_id.id.len(), 40);
    d.set_site_description("1N,2S");
    assert_eq!(d.header.site_description.description, b"1N,2S".to_vec());
    d.set_version(123);
    assert_eq!(d.version.value(), 123);
}

#[test]
fn root_without_version_is_missing_a_field() {
    assert_eq!(DCM::from_sequence(Sequence::new()), Err(AsnError::MissingRequiredField));
}

fn oid(p: Vec<i64>) -> ASN {
    ASN::OID(AsnOID::new(p))
}

fn seq(c: Vec<ASN>) -> ASN {
    ASN::Sequence(Sequence { content: c })
}

fn built_file() -> ASN {
    let header = seq(vec![seq(vec![
        oid(path(&[9, 9])),
        oid(BASE.to_vec()),
        oid(vec![0, 9, 4, 1]),
        ASN::OctetString(OctetString::new(b"511".to_vec())),
        oid(vec![0, 9, 6, 14]),
        pvr_row(1, path(&[9, 1, 6])),
        oid(vec![0, 9, 6, 14]),
        pvr_row(2, path(&[9, 1, 11])),
    ])]);
    let row = seq(vec![
        ASN::Integer(Integer::new(1)),
        ASN::Integer(Integer::new(1)),
        ASN::Application(Application::new(vec![0, 0, 0, 1])),
        ASN::Application(Application::new(vec![0, 0, 0, 2])),
        ASN::Integer(Integer::new(2)),
        ASN::Integer(Integer::new(2)),
        ASN::OctetString(OctetString::new(vec![0x58, 0x01, 0x00, 0x10, 0x59, 0x00])),
    ]);
    let body = seq(vec![oid(vec![0, 9, 6, 30]), seq(vec![row])]);
    seq(vec![oid(path(&[9, 10])), ASN::Integer(Integer::new(123)), header, body])
}

#[test]
fn encode_decode_built_file() {
    let bytes = built_file().encode();
    let tree = decode(&bytes).unwrap().unwrap();
    let dcm = DCM::from_sequence(tree.into_sequence().unwrap()).unwrap();
    assert_eq!(dcm.version.value(), 123);
    assert_eq!(dcm.header.site_id.id, b"511".to_vec());
    let study = &dcm.body.data_struct[0];
    assert_eq!(study.data.len(), 2);
    assert_eq!(study.data[0][0], veh_class(0x58));
    assert_eq!(
        study.data[0][1],
        Device::DCM(Dcm::VehCriteria(VehCriteria::AxleSpacing(vec![0x0010])))
    );
    assert_eq!(study.data[1][0], veh_class(0x59));
    let back = ASN::Sequence(dcm.to_sequence());
    assert_eq!(back, built_file());
    assert_eq!(back.encode(), bytes);
}

#[test]
fn edit_built_file() {
    let bytes = built_file().encode();
    let tree = decode(&bytes).unwrap().unwrap();
    let mut dcm = DCM::from_sequence(tree.into_sequence().unwrap()).unwrap();
    dcm.set_site_id("Teste Edit");
    dcm.set_site_description("1N,2S");
    let back = dcm.to_sequence();
    let header = back.content[2].get_sequence().unwrap().content[0].get_sequence().unwrap();
    assert_eq!(header.content[2], oid(vec![0, 9, 4, 1]));
    assert_eq!(header.content[3], ASN::OctetString(OctetString::new(b"Teste Edit".to_vec())));
    assert_eq!(header.content[4], oid(vec![0, 9, 4, 3]));
    assert_eq!(header.content[5], ASN::OctetString(OctetString::new(b"1N,2S".to_vec())));
    let mut removed = DCM::from_sequence(decode(&bytes).unwrap().unwrap().into_sequence().unwrap()).unwrap();
    let study = &mut removed.body.data_struct[0];
    assert_eq!(study.filter_mut(|d: &Device| *d == veh_class(0x59)), vec![1]);
    study.filter_remove(|d: &Device| *d == veh_class(0x58));
    assert_eq!(study.data.len(), 1);
    assert_eq!(study.data_num_records.value(), 1);
}

#[test]
fn unknown_study_config_leaf_is_passed_over() {
    let mut h = DCMHeader::empty();
    let before = h.clone();
    assert_eq!(h.add(AsnOID::new(path(&[9, 5, 7])), Some(ASN::Integer(Integer::new(1)))), Ok(()));
    assert_eq!(h, before);
    assert_eq!(h.config.study_config_table.len(), 0);
}

#[test]
fn data_structure_entry_set_reads_the_first_child() {
    let row = || seq(vec![
        ASN::Integer(Integer::new(4)),
        ASN::Integer(Integer::new(5)),
        ASN::Application(Application::new(vec![1])),
        ASN::Application(Application::new(vec![2])),
        ASN::Integer(Integer::new(6)),
        ASN::Integer(Integer::new(7)),
        ASN::OctetString(OctetString::new(vec![9, 9])),
    ]);
    let mut e = DataStructureEntry::new_empty();
    assert_eq!(e.set(seq(vec![row()])), Ok(()));
    assert_eq!(e.study_num().value(), 4);
    assert_eq!(e.data.content, vec![9, 9]);
    let before = e.clone();
    assert_eq!(e.set(row()), Err(AsnError::TypeMismatch));
    assert_eq!(e, before);
}

fn header_with_table() -> DCMHeader {
    let mut h = DCMHeader::empty();
    h.add(AsnOID::new(path(&[9, 6, 14])), Some(pvr_row(1, path(&[9, 1, 6])))).unwrap();
    h.add(AsnOID::new(path(&[9, 6, 14])), Some(pvr_row(2, path(&[9, 1, 11])))).unwrap();
    h
}

fn body_with_blob(blob: Vec<u8>) -> ASN {
    let row = seq(vec![
        ASN::Integer(Integer::new(1)),
        ASN::Integer(Integer::new(1)),
        ASN::Application(Application::new(vec![0, 0, 0, 1])),
        ASN::Application(Application::new(vec![0, 0, 0, 2])),
        ASN::Integer(Integer::new(2)),
        ASN::Integer(Integer::new(2)),
        ASN::OctetString(OctetString::new(blob)),
    ]);
    seq(vec![oid(path(&[9, 6, 30])), seq(vec![row])])
}

#[test]
fn read_body_slices_each_row() {
    let h = header_with_table();
    let body = h.read_body(body_with_blob(vec![0x01, 0x01, 0x03, 0x04, 0x02, 0x01, 0xAA, 0xBB])).unwrap();
    assert_eq!(body.data_struct.len(), 1);
    let study = &body.data_struct[0];
    assert_eq!(study.data_num_records.value(), 2);
    assert_eq!(study.data.len(), 2);
    assert_eq!(study.data[1][1], Device::DCM(Dcm::VehCriteria(VehCriteria::AxleSpacing(vec![0xAABB]))));
}

#[test]
fn read_body_errors() {
    let h = header_with_table();
    assert_eq!(h.read_body(body_with_blob(vec![0x01, 0x02, 0x03])).err(), Some(AsnError::TruncatedRecord));
    let bad = seq(vec![oid(path(&[9, 6, 30])), ASN::Integer(Integer::new(1))]);
    assert_eq!(h.read_body(bad).err(), Some(AsnError::TypeMismatch));
    assert_eq!(h.read_body(ASN::Integer(Integer::new(1))).err(), Some(AsnError::TypeMismatch));
    let mut unknown = DCMHeader::empty();
    unknown.add(AsnOID::new(path(&[9, 6, 14])), Some(pvr_row(1, vec![1, 2, 3]))).unwrap();
    assert_eq!(unknown.read_body(body_with_blob(vec![1])).err(), Some(AsnError::UnknownOID));
    let other = seq(vec![oid(path(&[9, 4, 1])), ASN::Integer(Integer::new(1))]);
    assert_eq!(h.read_body(other).unwrap().data_struct.len(), 0);
}

#[test]
fn oid_text_is_dotted_decimal() {
    assert_eq!(AsnOID::new(vec![1, 3, 6, -2, 1206]).stringfy(), b"1.3.6.-2.1206".to_vec());
    assert_eq!(AsnOID::new(vec![]).stringfy(), Vec::<u8>::new());
    assert_eq!(AsnOID::new(vec![i64::MIN]).stringfy(), b"-9223372036854775808".to_vec());
}

#[test]
fn header_written_and_read_back() {
    let mut h = header_with_table();
    h.relative = RelativeAddrOID(Some(AsnOID::new(BASE.to_vec())));
    h.site_id.id = b"511".to_vec();
    let back = DCMHeader::new(h.to_sequence()).unwrap();
    assert_eq!(back, h);
}
