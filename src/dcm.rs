//! The module file: header, body and the records the body carries.

use vstd::prelude::*;
use vstd::string::StringSliceAdditionalSpecFns;

use crate::oid::field::ints;
use crate::oid::leaves::{
    is_pvr_row, is_study_config_row, unknown_site_description, unknown_site_id,
    PvrStudyConfigEntry, SiteDescription, SiteId,
};
use crate::oid::registry::{
    base, resolve, resolved_path, Dcm, Device, RelativeAddrOID, SiteSetup, StudyConfig,
    StudyDataSetup,
};
use crate::decode::{copy_range, views};
use crate::oid::leaves::{copy_arcs, copy_bytes, DataStructureEntry, StudyConfigEntry};
use crate::oid::registry::{
    device_path, device_values, device_width, same_numbers, DataStructureTable, MibVersionNumber,
    OID,
};
use crate::oid::field::Width;
use crate::records::{
    all_ok, pack_records, pack_spec, packable, parse_records, records_view, slice_records, widths,
};
use crate::value::{Application, AsnError, AsnOID, Integer, OctetString, Sequence, Tree, ASN};

verus! {

/// A header path with a leading `0` arc put back to its absolute form: the
/// `0` stands for the prefix, once the file has given one.
pub open spec fn expand(prefix: Option<Seq<i64>>, p: Seq<i64>) -> Seq<i64> {
    if prefix is Some && p.len() >= 1 && p[0] == 0 {
        prefix->Some_0 + p.drop_first()
    } else {
        p
    }
}

/// An absolute path written short: a non-empty prefix that it begins with
/// becomes a single `0` arc.
pub open spec fn compress(prefix: Option<Seq<i64>>, p: Seq<i64>) -> Seq<i64> {
    if prefix is Some && prefix->Some_0.len() > 0 && prefix->Some_0.len() <= p.len()
        && p.subrange(0, prefix->Some_0.len() as int) == prefix->Some_0 {
        seq![0i64] + p.subrange(prefix->Some_0.len() as int, p.len() as int)
    } else {
        p
    }
}

/// Expanding a short path and writing it short again gives it back, and
/// writing an absolute path short and expanding it gives it back.
pub proof fn law_relative_round_trip(prefix: Seq<i64>, p: Seq<i64>)
    requires
        prefix.len() > 0,
    ensures
        p.len() >= 1 && p[0] == 0 ==> compress(Some(prefix), expand(Some(prefix), p)) == p,
        prefix.len() <= p.len() && p.subrange(0, prefix.len() as int) == prefix ==> expand(
            Some(prefix),
            compress(Some(prefix), p),
        ) == p,
{
    if p.len() >= 1 && p[0] == 0 {
        let e = expand(Some(prefix), p);
        assert(e.subrange(0, prefix.len() as int) =~= prefix);
        assert(seq![0i64] + e.subrange(prefix.len() as int, e.len() as int) =~= p);
    }
    if prefix.len() <= p.len() && p.subrange(0, prefix.len() as int) == prefix {
        let c = compress(Some(prefix), p);
        assert(prefix + c.drop_first() =~= p);
    }
}

/// The prefix a relative-address leaf holds.
pub open spec fn prefix_of(r: RelativeAddrOID) -> Option<Seq<i64>> {
    match r.0 {
        Some(o) => Some(o.content@),
        None => None,
    }
}

/// What the header does with an entry, by the leaf its absolute path names.
pub enum HeaderAction {
    SiteId,
    SiteDescription,
    Relative,
    FieldRow,
    StudyConfigRow,
    Skip,
}

/// The action for an entry whose absolute path is `p`.
pub open spec fn header_action(p: Seq<int>) -> HeaderAction {
    match resolved_path(p) {
        Some(q) => if q == base() + seq![9, 4, 1] {
            HeaderAction::SiteId
        } else if q == base() + seq![9, 4, 3] {
            HeaderAction::SiteDescription
        } else if q == base() + seq![9, 9] {
            HeaderAction::Relative
        } else if q == base() + seq![9, 6, 14] {
            HeaderAction::FieldRow
        } else if q == base() + seq![9, 5, 5] {
            HeaderAction::StudyConfigRow
        } else {
            HeaderAction::Skip
        },
        None => HeaderAction::Skip,
    }
}

/// The absolute path that the first row at place `k + 1` names, where there
/// is such a row and its path resolves.
pub open spec fn place_path(h: DCMHeader, k: int) -> Option<Seq<int>> {
    let j = first_row(h.content@, k);
    if j < 0 {
        None
    } else {
        resolved_path(ints(expand(prefix_of(h.relative), h.content@[j].pvr_param.content@)))
    }
}

/// What is wrong with place `k + 1` of the field table, if anything.
pub open spec fn place_error(h: DCMHeader, k: int) -> Option<AsnError> {
    if first_row(h.content@, k) < 0 {
        Some(AsnError::MissingRequiredField)
    } else if place_path(h, k) is None {
        Some(AsnError::UnknownOID)
    } else {
        None
    }
}

/// The first error among places 1 to `n` of the field table.
pub open spec fn table_error(h: DCMHeader, n: nat) -> Option<AsnError>
    decreases n,
{
    if n == 0 {
        None
    } else {
        match table_error(h, (n - 1) as nat) {
            Some(e) => Some(e),
            None => place_error(h, n - 1),
        }
    }
}

proof fn lemma_table_error_stays(h: DCMHeader, m: nat, n: nat)
    requires
        m <= n,
        table_error(h, m) is Some,
    ensures
        table_error(h, n) == table_error(h, m),
    decreases n - m,
{
    if m < n {
        lemma_table_error_stays(h, m, (n - 1) as nat);
    }
}

/// The layouts of the fields, in place order.
pub open spec fn table_widths(h: DCMHeader) -> Seq<Width> {
    Seq::new(
        h.content@.len(),
        |k: int| crate::oid::registry::path_width(place_path(h, k)->Some_0),
    )
}

/// Each record holds one leaf per place of the field table, in place order.
pub open spec fn follows_places(h: DCMHeader, rs: Seq<Vec<Device>>) -> bool {
    &&& forall|i: int| 0 <= i < rs.len() ==> (#[trigger] rs[i])@.len() == h.content@.len()
    &&& forall|i: int, j: int|
        0 <= i < rs.len() && 0 <= j < rs[i]@.len() ==> Some(device_path(#[trigger] rs[i]@[j]))
            == place_path(h, j)
}

/// What a header holds, as values: the site texts, the configuration rows
/// and field-table rows as their nodes, and the prefix.
pub struct HeaderView {
    pub site_id: Seq<u8>,
    pub site_description: Seq<u8>,
    pub config: Seq<Seq<Tree>>,
    pub content: Seq<Seq<Tree>>,
    pub relative: Option<Seq<i64>>,
}

/// The configuration row that a study-config leaf holds; none for an
/// unknown one.
pub open spec fn config_row(c: StudyConfig) -> Seq<Tree> {
    match c {
        StudyConfig::StudyConfigTable(e) => e.row_view(),
        StudyConfig::Unknown => Seq::empty(),
    }
}

/// The value of a header.
pub open spec fn hview(h: DCMHeader) -> HeaderView {
    HeaderView {
        site_id: h.site_id.id@,
        site_description: h.site_description.description@,
        config: h.config.study_config_table@.map_values(|c: StudyConfig| config_row(c)),
        content: h.content@.map_values(|e: PvrStudyConfigEntry| e.row_view()),
        relative: prefix_of(h.relative),
    }
}

/// A header with nothing in it.
pub open spec fn empty_view() -> HeaderView {
    HeaderView {
        site_id: Seq::empty(),
        site_description: Seq::empty(),
        config: Seq::empty(),
        content: Seq::empty(),
        relative: None,
    }
}

/// The place of the first row whose index node is `key`; -1 for none.
pub open spec fn first_same(rows: Seq<Seq<Tree>>, key: Tree) -> int
    decreases rows.len(),
{
    if rows.len() == 0 {
        -1
    } else {
        let f = first_same(rows.drop_last(), key);
        if f >= 0 {
            f
        } else if rows.last()[1] == key {
            rows.len() - 1
        } else {
            -1
        }
    }
}

/// A row put into the field table: in place of the first row with its
/// index, else at the end.
pub open spec fn insert_row(rows: Seq<Seq<Tree>>, row: Seq<Tree>) -> Seq<Seq<Tree>> {
    let j = first_same(rows, row[1]);
    if j >= 0 {
        rows.update(j, row)
    } else {
        rows.push(row)
    }
}

proof fn lemma_first_same_prefix(rows: Seq<Seq<Tree>>, key: Tree, i: int)
    requires
        0 <= i < rows.len(),
        first_same(rows.subrange(0, i + 1), key) == i,
    ensures
        first_same(rows, key) == i,
    decreases rows.len() - i,
{
    if rows.len() > i + 1 {
        let short = rows.drop_last();
        assert(short.subrange(0, i + 1) =~= rows.subrange(0, i + 1));
        lemma_first_same_prefix(short, key, i);
    } else {
        assert(rows.subrange(0, i + 1) =~= rows);
    }
}

/// What one entry does to a header: its path, put back to its absolute form,
/// picks the action.
pub open spec fn add_spec(h: HeaderView, oid: Seq<i64>, value: Option<Tree>) -> Result<
    HeaderView,
    AsnError,
> {
    match header_action(ints(expand(h.relative, oid))) {
        HeaderAction::Skip => Ok(h),
        HeaderAction::SiteId => Ok(
            HeaderView {
                site_id: match value {
                    Some(Tree::OctetString(b)) => b,
                    Some(_) => unknown_site_id(),
                    None => Seq::empty(),
                },
                ..h
            },
        ),
        HeaderAction::SiteDescription => Ok(
            HeaderView {
                site_description: match value {
                    Some(Tree::OctetString(b)) => b,
                    Some(_) => unknown_site_description(),
                    None => Seq::empty(),
                },
                ..h
            },
        ),
        HeaderAction::Relative => Ok(
            HeaderView {
                relative: match value {
                    Some(Tree::OID(a)) => Some(a),
                    _ => None,
                },
                ..h
            },
        ),
        HeaderAction::FieldRow => match value {
            Some(Tree::Sequence(c)) => if is_pvr_row(c) {
                Ok(HeaderView { content: insert_row(h.content, c), ..h })
            } else {
                Err(AsnError::TypeMismatch)
            },
            _ => Err(AsnError::TypeMismatch),
        },
        HeaderAction::StudyConfigRow => match value {
            Some(Tree::Sequence(c)) => if is_study_config_row(c) {
                Ok(HeaderView { config: h.config.push(c), ..h })
            } else {
                Err(AsnError::TypeMismatch)
            },
            _ => Err(AsnError::TypeMismatch),
        },
    }
}

/// The header that the entries `items` (a path and a value after one
/// another) build from `h`; an entry whose first node is not a path is
/// passed over, as is a last node without a partner.
pub open spec fn pairs_fold(h: HeaderView, items: Seq<Tree>) -> Result<HeaderView, AsnError>
    decreases items.len(),
{
    if items.len() < 2 {
        Ok(h)
    } else {
        let step = match items[0] {
            Tree::OID(a) => add_spec(h, a, Some(items[1])),
            _ => Ok(h),
        };
        match step {
            Err(e) => Err(e),
            Ok(h2) => pairs_fold(h2, items.subrange(2, items.len() as int)),
        }
    }
}

/// An entry whose absolute path names no leaf the header keeps is as if it
/// were not there: the header built with it equals the one built without it.
pub proof fn law_unknown_entry_skipped(
    h: HeaderView,
    pre: Seq<Tree>,
    path: Seq<i64>,
    value: Tree,
    post: Seq<Tree>,
)
    requires
        pre.len() % 2 == 0,
        path.len() == 0 || path[0] != 0,
        header_action(ints(path)) is Skip,
    ensures
        pairs_fold(h, pre + seq![Tree::OID(path), value] + post) == pairs_fold(h, pre + post),
    decreases pre.len(),
{
    let all = pre + seq![Tree::OID(path), value] + post;
    if pre.len() == 0 {
        assert(expand(h.relative, path) == path);
        assert(all.subrange(2, all.len() as int) =~= post);
        assert(pre + post =~= post);
    } else {
        let step = match pre[0] {
            Tree::OID(a) => add_spec(h, a, Some(pre[1])),
            _ => Ok(h),
        };
        let rest = pre.subrange(2, pre.len() as int);
        assert(all[0] == pre[0] && all[1] == pre[1]);
        assert((pre + post)[0] == pre[0] && (pre + post)[1] == pre[1]);
        assert(all.subrange(2, all.len() as int) =~= rest + seq![Tree::OID(path), value] + post);
        assert((pre + post).subrange(2, (pre + post).len() as int) =~= rest + post);
        match step {
            Ok(h2) => {
                law_unknown_entry_skipped(h2, rest, path, value, post);
            },
            Err(_) => {},
        }
    }
}

/// The rows of the study configuration table, in the order they came.
#[derive(Clone, Debug, PartialEq, Eq)]
pub struct DCMConfig {
    pub study_config_table: Vec<StudyConfig>,
}

/// The header: site identity, configuration tables and the field table
/// that lays out the records.
#[derive(Clone, Debug, PartialEq, Eq)]
pub struct DCMHeader {
    pub site_id: SiteId,
    pub site_description: SiteDescription,
    pub config: DCMConfig,
    /// The field table: which field stands at which place in a record.
    pub content: Vec<PvrStudyConfigEntry>,
    pub relative: RelativeAddrOID,
}

/// The value of an entry as a node, where there is one.
pub open spec fn value_view(value: Option<ASN>) -> Option<Tree> {
    match value {
        Some(v) => Some(v@),
        None => None,
    }
}

impl DCMHeader {
    /// A header with nothing in it.
    pub fn empty() -> (r: Self)
        ensures
            r.site_id.id@.len() == 0,
            r.site_description.description@.len() == 0,
            r.config.study_config_table@.len() == 0,
            r.content@.len() == 0,
            r.relative.0 is None,
    {
        DCMHeader {
            site_id: SiteId::new(),
            site_description: SiteDescription::new(),
            config: DCMConfig { study_config_table: Vec::new() },
            content: Vec::new(),
            relative: RelativeAddrOID(None),
        }
    }

    /// Puts a header path with a leading `0` arc back to its absolute form.
    pub fn get_absolute(&self, oid: &mut AsnOID)
        ensures
            final(oid).content@ == expand(prefix_of(self.relative), old(oid).content@),
    {
        if oid.content.len() >= 1 && oid.content[0] == 0 {
            if let Some(prefix) = &self.relative.0 {
                let mut absolute = crate::oid::leaves::copy_arcs(&prefix.content);
                let mut i: usize = 1;
                while i < oid.content.len()
                    invariant
                        1 <= i <= oid.content@.len(),
                        absolute@ == prefix.content@ + oid.content@.subrange(1, i as int),
                    decreases oid.content@.len() - i,
                {
                    absolute.push(oid.content[i]);
                    i += 1;
                    assert(absolute@ =~= prefix.content@ + oid.content@.subrange(1, i as int));
                }
                assert(oid.content@.subrange(1, oid.content@.len() as int)
                    =~= oid.content@.drop_first());
                oid.content = absolute;
            }
        }
    }

    /// Writes an absolute path short against the file's prefix.
    pub fn to_relative(&self, oid: &Vec<i64>) -> (r: Vec<i64>)
        ensures
            r@ == compress(prefix_of(self.relative), oid@),
    {
        if let Some(prefix) = &self.relative.0 {
            let n = prefix.content.len();
            if n > 0 && n <= oid.len() {
                let mut i: usize = 0;
                while i < n
                    invariant
                        i <= n,
                        n == prefix.content@.len(),
                        n <= oid@.len(),
                        prefix_of(self.relative) == Some(prefix.content@),
                        forall|j: int| 0 <= j < i ==> oid@[j] == prefix.content@[j],
                    decreases n - i,
                {
                    if oid[i] != prefix.content[i] {
                        assert(oid@.subrange(0, n as int)[i as int] != prefix.content@[i as int]);
                        assert(oid@.subrange(0, n as int) != prefix.content@);
                        return crate::oid::leaves::copy_arcs(oid);
                    }
                    i += 1;
                }
                assert(oid@.subrange(0, n as int) =~= prefix.content@);
                let mut r: Vec<i64> = vec![0];
                let mut k: usize = n;
                while k < oid.len()
                    invariant
                        n <= k <= oid@.len(),
                        n == prefix.content@.len(),
                        prefix_of(self.relative) == Some(prefix.content@),
                        oid@.subrange(0, n as int) == prefix.content@,
                        r@ == seq![0i64] + oid@.subrange(n as int, k as int),
                    decreases oid@.len() - k,
                {
                    r.push(oid[k]);
                    k += 1;
                    assert(r@ =~= seq![0i64] + oid@.subrange(n as int, k as int));
                }
                return r;
            }
        }
        crate::oid::leaves::copy_arcs(oid)
    }
}


impl DCMHeader {
    /// Puts a row into the field table: it takes the place of the first row
    /// with the same index, else it goes at the end.
    pub fn insert_entry(&mut self, entry: PvrStudyConfigEntry)
        ensures
            hview(*final(self)) == (HeaderView {
                content: insert_row(hview(*old(self)).content, entry.row_view()),
                ..hview(*old(self))
            }),
            final(self).site_id == old(self).site_id,
            final(self).site_description == old(self).site_description,
            final(self).config == old(self).config,
            final(self).relative == old(self).relative,
    {
        let ghost rows = hview(*self).content;
        let mut i: usize = 0;
        while i < self.content.len()
            invariant
                i <= self.content@.len(),
                *self == *old(self),
                rows == hview(*old(self)).content,
                first_same(rows.subrange(0, i as int), entry.row_view()[1]) == -1,
            decreases self.content@.len() - i,
        {
            proof {
                let c = rows.subrange(0, i + 1);
                assert(c.drop_last() =~= rows.subrange(0, i as int));
                assert(c.last() == self.content@[i as int].row_view());
            }
            if self.content[i].pvr_study_index.content == entry.pvr_study_index.content {
                proof {
                    assert(first_same(rows.subrange(0, i + 1), entry.row_view()[1]) == i);
                    lemma_first_same_prefix(rows, entry.row_view()[1], i as int);
                }
                self.content.set(i, entry);
                assert(hview(*self).content =~= insert_row(rows, entry.row_view()));
                assert(hview(*self) =~= (HeaderView {
                    content: insert_row(hview(*old(self)).content, entry.row_view()),
                    ..hview(*old(self))
                }));
                return;
            }
            i += 1;
        }
        assert(rows.subrange(0, rows.len() as int) =~= rows);
        self.content.push(entry);
        assert(hview(*self).content =~= insert_row(rows, entry.row_view()));
        assert(hview(*self) =~= (HeaderView {
            content: insert_row(hview(*old(self)).content, entry.row_view()),
            ..hview(*old(self))
        }));
    }

    /// Takes one header entry: a path and its value. Entries whose path names
    /// no leaf the header keeps are passed over and leave the header as it
    /// was; a table row of the wrong shape is a type mismatch and leaves it
    /// too.
    #[verifier::rlimit(60)]
    pub fn add(&mut self, oid: AsnOID, value: Option<ASN>) -> (r: Result<(), AsnError>)
        ensures
            header_action(ints(expand(prefix_of(old(self).relative), oid.content@))) is Skip ==> r
                is Ok && *final(self) == *old(self),
            match (r, add_spec(hview(*old(self)), oid.content@, value_view(value))) {
                (Ok(()), Ok(v)) => hview(*final(self)) == v,
                (Err(e1), Err(e2)) => e1 == e2 && *final(self) == *old(self),
                _ => false,
            },
    {
        let ghost vv = value_view(value);
        let ghost oid0 = oid.content@;
        let ghost spec_r = add_spec(hview(*self), oid0, vv);
        let mut oid = oid;
        self.get_absolute(&mut oid);
        let ghost p = ints(oid.content@);
        let found = resolve(oid.content.as_slice());
        let d = match found {
            Ok(d) => d,
            Err(_) => {
                assert(header_action(p) is Skip);
                return Ok(());
            },
        };
        let ghost q = crate::oid::registry::device_path(d);
        assert(resolved_path(p) == Some(q));
        match d {
            Device::DCM(Dcm::SiteSetup(SiteSetup::SiteId(_))) => {
                assert(q =~= base() + seq![9, 4, 1]);
                let mut site = SiteId::new();
                if let Some(v) = value {
                    site.set(v);
                }
                self.site_id = site;
                assert(spec_r is Ok);
                assert(hview(*self).site_id =~= spec_r->Ok_0.site_id);
                assert(hview(*self).config == spec_r->Ok_0.config);
                assert(hview(*self).content == spec_r->Ok_0.content);
                assert(hview(*self) == spec_r->Ok_0);
                Ok(())
            },
            Device::DCM(Dcm::SiteSetup(SiteSetup::SiteDescription(_))) => {
                assert(q =~= base() + seq![9, 4, 3]);
                assert((base() + seq![9, 4, 1])[11] == 1 && (base() + seq![9, 4, 1])[10] == 4);
                assert(q != base() + seq![9, 4, 1]);
                let mut description = SiteDescription::new();
                if let Some(v) = value {
                    description.set(v);
                }
                self.site_description = description;
                assert(spec_r is Ok);
                assert(hview(*self).site_description =~= spec_r->Ok_0.site_description);
                assert(hview(*self).config == spec_r->Ok_0.config);
                assert(hview(*self).content == spec_r->Ok_0.content);
                assert(hview(*self) == spec_r->Ok_0);
                Ok(())
            },
            Device::DCM(Dcm::RelativeAddrOID(_)) => {
                assert(q =~= base() + seq![9, 9]);
                assert((base() + seq![9, 4, 1])[11] == 1 && (base() + seq![9, 4, 1])[10] == 4);
                assert(q != base() + seq![9, 4, 1]);
                assert((base() + seq![9, 4, 3])[11] == 3 && (base() + seq![9, 4, 3])[10] == 4);
                assert(q != base() + seq![9, 4, 3]);
                let mut relative = RelativeAddrOID(None);
                if let Some(v) = value {
                    relative.set(v);
                }
                self.relative = relative;
                assert(spec_r is Ok);
                assert(hview(*self).config == spec_r->Ok_0.config);
                assert(hview(*self).content == spec_r->Ok_0.content);
                assert(hview(*self) == spec_r->Ok_0);
                Ok(())
            },
            Device::DCM(Dcm::StudyDataSetup(StudyDataSetup::PvrStudyConfigTable(_))) => {
                assert(q =~= base() + seq![9, 6, 14]);
                assert((base() + seq![9, 4, 1])[11] == 1 && (base() + seq![9, 4, 1])[10] == 4);
                assert(q != base() + seq![9, 4, 1]);
                assert((base() + seq![9, 4, 3])[11] == 3 && (base() + seq![9, 4, 3])[10] == 4);
                assert(q != base() + seq![9, 4, 3]);
                assert((base() + seq![9, 9]).len() == 11);
                assert(q != base() + seq![9, 9]);
                match value {
                    Some(v) => match PvrStudyConfigEntry::from_node(v) {
                        Ok(entry) => {
                            self.insert_entry(entry);
                            assert(hview(*self) == spec_r->Ok_0);
                            Ok(())
                        },
                        Err(e) => Err(e),
                    },
                    None => Err(AsnError::TypeMismatch),
                }
            },
            Device::DCM(Dcm::StudyConfig(StudyConfig::StudyConfigTable(_))) => {
                assert(q =~= base() + seq![9, 5, 5]);
                assert((base() + seq![9, 4, 1])[11] == 1 && (base() + seq![9, 4, 1])[10] == 4);
                assert(q != base() + seq![9, 4, 1]);
                assert((base() + seq![9, 4, 3])[11] == 3 && (base() + seq![9, 4, 3])[10] == 4);
                assert(q != base() + seq![9, 4, 3]);
                assert((base() + seq![9, 9]).len() == 11);
                assert(q != base() + seq![9, 9]);
                assert((base() + seq![9, 6, 14])[11] == 14 && (base() + seq![9, 6, 14])[10] == 6);
                assert(q != base() + seq![9, 6, 14]);
                match value {
                    Some(v) => match crate::oid::leaves::StudyConfigEntry::from_node(v) {
                        Ok(entry) => {
                            let ghost row = entry.row_view();
                            self.config.study_config_table.push(
                                StudyConfig::StudyConfigTable(entry),
                            );
                            assert(hview(*self).config =~= hview(*old(self)).config.push(row));
                            assert(hview(*self) == spec_r->Ok_0);
                            Ok(())
                        },
                        Err(e) => Err(e),
                    },
                    None => Err(AsnError::TypeMismatch),
                }
            },
            _ => {
                proof {
                    lemma_other_leaves_skip(d, p);
                }
                Ok(())
            },
        }
    }
}

/// A leaf that the header does not keep gives the skip action.
#[verifier::rlimit(40)]
proof fn lemma_other_leaves_skip(d: Device, p: Seq<int>)
    requires
        resolved_path(p) == Some(crate::oid::registry::device_path(d)),
        !(d matches Device::DCM(Dcm::SiteSetup(SiteSetup::SiteId(_)))),
        !(d matches Device::DCM(Dcm::SiteSetup(SiteSetup::SiteDescription(_)))),
        !(d matches Device::DCM(Dcm::RelativeAddrOID(_))),
        !(d matches Device::DCM(Dcm::StudyDataSetup(StudyDataSetup::PvrStudyConfigTable(_)))),
        !(d matches Device::DCM(Dcm::StudyConfig(StudyConfig::StudyConfigTable(_)))),
    ensures
        header_action(p) is Skip,
{
    let q = crate::oid::registry::device_path(d);
    let targets = seq![
        base() + seq![9, 4, 1],
        base() + seq![9, 4, 3],
        base() + seq![9, 9],
        base() + seq![9, 6, 14],
        base() + seq![9, 5, 5],
    ];
    assert forall|i: int| 0 <= i < 5 implies q != #[trigger] targets[i] by {
        let t = targets[i];
        match d {
            Device::DCM(x) => {
                match x {
                    Dcm::VehCriteria(v) => {
                        if q.len() == t.len() {
                            assert(q[10] != t[10] || q.len() != t.len() || q[11] != t[11]);
                        }
                    },
                    Dcm::SiteSetup(y) => {
                        if q.len() == t.len() {
                            assert(q[11] != t[11] || q[10] != t[10]);
                        }
                    },
                    Dcm::StudyDataSetup(y) => {
                        if q.len() == t.len() {
                            assert(q[11] != t[11] || q[10] != t[10]);
                        }
                    },
                    Dcm::StudyConfig(y) => {
                        if q.len() == t.len() {
                            assert(q[11] != t[11] || q[10] != t[10]);
                        }
                    },
                    _ => {
                        assert(q.len() != t.len() || q[10] != t[10]);
                    },
                }
            },
            _ => {
                assert(q.len() != t.len() || q[9] != t[9]);
            },
        }
    }
    assert(q != targets[0]);
    assert(q != targets[1]);
    assert(q != targets[2]);
    assert(q != targets[3]);
    assert(q != targets[4]);
}

impl DCMHeader {
    /// Reads the header from its sequence: the first child holds the entries,
    /// a path and its value after one another. An entry whose first node is
    /// not a path is passed over, as is one whose path names no leaf the
    /// header keeps.
    pub fn new(header: Sequence) -> (r: Result<DCMHeader, AsnError>)
        ensures
            header.content@.len() == 0 || !(header.content@[0] is Sequence) ==> r
                == Err::<DCMHeader, AsnError>(AsnError::MissingRequiredField),
            header.content@.len() > 0 ==> match header.content@[0]@ {
                Tree::Sequence(items) => match (r, pairs_fold(empty_view(), items)) {
                    (Ok(h), Ok(v)) => hview(h) == v,
                    (Err(e1), Err(e2)) => e1 == e2,
                    _ => false,
                },
                _ => true,
            },
    {
        let ghost hc = header.content@;
        let mut outer = header.content;
        if outer.len() == 0 {
            return Err(AsnError::MissingRequiredField);
        }
        let first = outer.remove(0);
        assert(first == hc[0]);
        let mut items = match first {
            ASN::Sequence(q) => q.content,
            _ => {
                return Err(AsnError::MissingRequiredField);
            },
        };
        let ghost iv = views(items@);
        proof {
            match hc[0]@ {
                Tree::Sequence(c) => {
                    assert(c =~= iv);
                },
                _ => {},
            }
        }
        let mut h = DCMHeader::empty();
        assert(hview(h) =~= empty_view()) by {
            assert(hview(h).site_id =~= Seq::<u8>::empty());
            assert(hview(h).site_description =~= Seq::<u8>::empty());
            assert(hview(h).config =~= Seq::<Seq<Tree>>::empty());
            assert(hview(h).content =~= Seq::<Seq<Tree>>::empty());
        }
        while items.len() >= 2
            invariant
                hc == header.content@,
                hc.len() > 0,
                hc[0] is Sequence,
                hc[0]@ == Tree::Sequence(iv),
                pairs_fold(empty_view(), iv) == pairs_fold(hview(h), views(items@)),
            decreases items@.len(),
        {
            let ghost before = items@;
            let a = items.remove(0);
            let b = items.remove(0);
            proof {
                assert(views(before)[0] == a@);
                assert(views(before)[1] == b@);
                assert(views(before).subrange(2, views(before).len() as int) =~= views(items@));
            }
            if let ASN::OID(o) = a {
                match h.add(o, Some(b)) {
                    Ok(()) => {},
                    Err(e) => {
                        return Err(e);
                    },
                }
            }
        }
        Ok(h)
    }

    /// The place in a record of the field whose path is `oid`, counted from 1;
    /// none where the table has no such field.
    pub fn get_content_position(&self, oid: &AsnOID) -> (r: Option<usize>)
        ensures
            match r {
                Some(i) => exists|j: int|
                    0 <= j < self.content@.len() && #[trigger] self.content@[j].pvr_param.content@
                        == oid.content@ && self.content@[j].pvr_study_index.content == i,
                None => forall|j: int|
                    0 <= j < self.content@.len() ==> (#[trigger] self.content@[j]).pvr_param.content@
                        != oid.content@ || self.content@[j].pvr_study_index.content < 0
                        || self.content@[j].pvr_study_index.content > usize::MAX,
            },
    {
        let mut j: usize = 0;
        while j < self.content.len()
            invariant
                j <= self.content@.len(),
                forall|x: int|
                    0 <= x < j ==> (#[trigger] self.content@[x]).pvr_param.content@ != oid.content@
                        || self.content@[x].pvr_study_index.content < 0
                        || self.content@[x].pvr_study_index.content > usize::MAX,
            decreases self.content@.len() - j,
        {
            let e = &self.content[j];
            if same_numbers(&e.pvr_param.content, &oid.content) && e.pvr_study_index.content >= 0
                && (e.pvr_study_index.content as u64) <= (usize::MAX as u64) {
                proof {
                    assert(ints(e.pvr_param.content@) =~= ints(
                        oid.content@,
                    ));
                    assert(e.pvr_param.content@.len() == ints(
                        e.pvr_param.content@,
                    ).len());
                    assert(oid.content@.len() == ints(oid.content@).len());
                    assert(e.pvr_param.content@ =~= oid.content@) by {
                        assert forall|x: int| 0 <= x < oid.content@.len() implies e.pvr_param.content@[x]
                            == oid.content@[x] by {
                            assert(ints(e.pvr_param.content@)[x]
                                == ints(oid.content@)[x]);
                        }
                    }
                }
                return Some(e.pvr_study_index.content as usize);
            }
            proof {
                if e.pvr_param.content@ == oid.content@ {
                    assert(ints(e.pvr_param.content@) == ints(
                        oid.content@,
                    ));
                }
            }
            j += 1;
        }
        None
    }

    /// The field table in record order: for places 1 to N, the leaf that the
    /// first row at that place names. The first place without a row is
    /// missing, and the first whose path names no leaf is unknown.
    #[verifier::rlimit(60)]
    pub fn field_table(&self) -> (r: Result<Vec<Device>, AsnError>)
        ensures
            match r {
                Ok(kinds) => {
                    &&& table_error(*self, self.content@.len()) is None
                    &&& kinds@.len() == self.content@.len()
                    &&& widths(kinds@) == table_widths(*self)
                    &&& all_ok(widths(kinds@))
                    &&& forall|k: int|
                        0 <= k < kinds@.len() ==> Some(device_path(#[trigger] kinds@[k]))
                            == place_path(*self, k)
                },
                Err(e) => table_error(*self, self.content@.len()) == Some(e),
            },
    {
        let n = self.content.len();
        let mut kinds: Vec<Device> = Vec::new();
        let mut k: usize = 0;
        while k < n
            invariant
                k <= n,
                n == self.content@.len(),
                kinds@.len() == k,
                table_error(*self, k as nat) is None,
                all_ok(widths(kinds@)),
                forall|x: int|
                    0 <= x < kinds@.len() ==> Some(device_path(#[trigger] kinds@[x])) == place_path(
                        *self,
                        x,
                    ),
            decreases n - k,
        {
            let at = match self.find_row(k) {
                Some(x) => x,
                None => {
                    proof {
                        lemma_table_error_stays(*self, (k + 1) as nat, n as nat);
                    }
                    return Err(AsnError::MissingRequiredField);
                },
            };
            let mut path = AsnOID { content: copy_arcs(&self.content[at].pvr_param.content) };
            self.get_absolute(&mut path);
            let d = match crate::oid::registry::resolve(path.content.as_slice()) {
                Ok(d) => d,
                Err(e) => {
                    proof {
                        lemma_table_error_stays(*self, (k + 1) as nat, n as nat);
                    }
                    return Err(e);
                },
            };
            let ghost old_kinds = kinds@;
            proof {
                crate::oid::registry::lemma_device_width_ok(d);
                assert(widths(kinds@.push(d)) =~= widths(kinds@).push(device_width(d)));
            }
            kinds.push(d);
            proof {
                assert forall|x: int|
                    0 <= x < kinds@.len() implies Some(device_path(#[trigger] kinds@[x]))
                    == place_path(*self, x) by {
                    if x < old_kinds.len() {
                        assert(kinds@[x] == old_kinds[x]);
                    }
                }
            }
            k += 1;
        }
        proof {
            assert forall|x: int| 0 <= x < n implies widths(kinds@)[x] == table_widths(*self)[x] by {
                crate::oid::registry::lemma_width_of_path(kinds@[x]);
            }
            assert(widths(kinds@) =~= table_widths(*self));
        }
        Ok(kinds)
    }

    /// Slices a data structure row's blob into records by the field table.
    /// Fails with the field table's first error, else where the blob ends
    /// inside a record.
    pub fn translate_data(&self, entry: DataStructureEntry) -> (r: Result<DCMDataStructEntry, AsnError>)
        ensures
            match r {
                Ok(x) => {
                    &&& table_error(*self, self.content@.len()) is None
                    &&& parse_records(table_widths(*self), entry.data.content@) == Some(
                        records_view(x.data@),
                    )
                    &&& follows_places(*self, x.data@)
                    &&& packable(x.data@)
                    &&& x.ds_study_num == entry.ds_study_num
                    &&& x.data_struc_index == entry.data_struc_index
                    &&& x.data_num_records == entry.data_num_records
                    &&& x.data_encoding == entry.data_encoding
                    &&& x.start_time == entry.start_time
                    &&& x.end_time == entry.end_time
                    &&& pack_spec(x.data@) == entry.data.content@
                },
                Err(e) => match table_error(*self, self.content@.len()) {
                    Some(e2) => e == e2,
                    None => e == AsnError::TruncatedRecord && parse_records(
                        table_widths(*self),
                        entry.data.content@,
                    ) is None,
                },
            },
    {
        let kinds = match self.field_table() {
            Ok(k) => k,
            Err(e) => {
                return Err(e);
            },
        };
        let data = match slice_records(&kinds, entry.data.content.as_slice()) {
            Ok(d) => d,
            Err(e) => {
                return Err(e);
            },
        };
        proof {
            crate::records::law_pack_records_of_slice(kinds@, data@, entry.data.content@);
            assert forall|i: int, j: int|
                0 <= i < data@.len() && 0 <= j < data@[i]@.len() implies Some(
                device_path(#[trigger] data@[i]@[j]),
            ) == place_path(*self, j) by {
                assert(device_path(data@[i]@[j]) == device_path(kinds@[j]));
            }
            assert forall|i: int| 0 <= i < data@.len() implies (#[trigger] data@[i])@.len()
                == self.content@.len() by {
                assert(data@[i]@.len() == kinds@.len());
            }
        }
        Ok(DCMDataStructEntry::new(entry, data))
    }

    /// Reads the body: its entries are a path and a value after one another.
    /// The value after the data structure table's path is its rows; each row
    /// becomes a study whose records are its blob sliced by the field table.
    /// Other entries are passed over.
    #[verifier::rlimit(100)]
    pub fn read_body(&self, body: ASN) -> (r: Result<DCMBody, AsnError>)
        ensures
            !(body@ is Sequence) ==> r == Err::<DCMBody, AsnError>(AsnError::TypeMismatch),
            match body@ {
                Tree::Sequence(items) => match (r, body_spec(*self, items)) {
                    (Ok(b), Ok(es)) => {
                        &&& body_packable(b)
                        &&& b.data_struct@.len() == es.len()
                        &&& forall|i: int|
                            0 <= i < es.len() ==> study_matches(
                                *self,
                                #[trigger] b.data_struct@[i],
                                es[i],
                            )
                    },
                    (Err(e1), Err(e2)) => e1 == e2,
                    _ => false,
                },
                _ => true,
            },
    {
        let ghost bt = body@;
        let mut items = match body {
            ASN::Sequence(q) => q.content,
            _ => {
                return Err(AsnError::TypeMismatch);
            },
        };
        let ghost bv = views(items@);
        proof {
            match bt {
                Tree::Sequence(c) => {
                    assert(c =~= bv);
                },
                _ => {},
            }
            assert(bv.subrange(0, bv.len() as int) =~= bv);
            match body_spec(*self, bv) {
                Ok(es) => {
                    assert(Seq::<Study>::empty() + es =~= es);
                },
                Err(_) => {},
            }
        }
        let mut out = DCMBody { data_struct: Vec::new() };
        let ghost mut done: Seq<Study> = Seq::empty();
        let ghost mut pos: int = 0;
        while items.len() > 0
            invariant
                body@ == bt,
                bt == Tree::Sequence(bv),
                0 <= pos <= bv.len(),
                views(items@) == bv.subrange(pos, bv.len() as int),
                body_packable(out),
                out.data_struct@.len() == done.len(),
                forall|i: int|
                    0 <= i < done.len() ==> study_matches(
                        *self,
                        #[trigger] out.data_struct@[i],
                        done[i],
                    ),
                body_spec(*self, bv) == prepend(
                    done,
                    body_spec(*self, bv.subrange(pos, bv.len() as int)),
                ),
            decreases items@.len(),
        {
            let ghost rest0 = bv.subrange(pos, bv.len() as int);
            let ghost before = items@;
            proof {
                assert(views(before).len() == before.len());
                assert(views(before)[0] == before[0]@);
            }
            let a = items.remove(0);
            proof {
                assert(items@ =~= before.subrange(1, before.len() as int));
                assert(views(items@) =~= bv.subrange(pos + 1, bv.len() as int)) by {
                    assert forall|x: int| 0 <= x < items@.len() implies views(items@)[x]
                        == bv.subrange(pos + 1, bv.len() as int)[x] by {
                        assert(views(before)[x + 1] == before[x + 1]@);
                    }
                }
                assert(rest0[0] == a@);
                assert(rest0.drop_first() =~= bv.subrange(pos + 1, bv.len() as int));
                pos = pos + 1;
            }
            let mut table_next = false;
            if let ASN::OID(o) = a {
                let mut oid = o;
                self.get_absolute(&mut oid);
                let d = crate::oid::registry::resolve(oid.content.as_slice());
                if let Ok(Device::DCM(Dcm::StudyDataSetup(StudyDataSetup::DataStructureTable(t)))) = d {
                    proof {
                        assert(device_path(
                            Device::DCM(Dcm::StudyDataSetup(StudyDataSetup::DataStructureTable(t))),
                        ) =~= base() + seq![9, 6, 30]);
                        assert(is_table_entry(*self, rest0[0]));
                    }
                    table_next = true;
                } else {
                    proof {
                        match d {
                            Ok(dd) => {
                                if device_path(dd) == base() + seq![9, 6, 30] {
                                    lemma_table_path(dd);
                                }
                            },
                            Err(_) => {},
                        }
                        assert(!is_table_entry(*self, rest0[0]));
                    }
                }
            }
            if table_next && items.len() > 0 {
                let ghost before2 = items@;
                proof {
                    assert(views(before2).len() == before2.len());
                    assert(views(before2)[0] == before2[0]@);
                }
                let v = items.remove(0);
                let ghost vv = v@;
                proof {
                    assert(vv == rest0[1]);
                    assert(items@ =~= before2.subrange(1, before2.len() as int));
                    assert(views(items@) =~= bv.subrange(pos + 1, bv.len() as int)) by {
                        assert forall|x: int| 0 <= x < items@.len() implies views(items@)[x]
                            == bv.subrange(pos + 1, bv.len() as int)[x] by {
                            assert(views(before2)[x + 1] == before2[x + 1]@);
                        }
                    }
                    assert(rest0.subrange(2, rest0.len() as int) =~= bv.subrange(
                        pos + 1,
                        bv.len() as int,
                    ));
                    pos = pos + 1;
                }
                let mut table = DataStructureTable(Vec::new());
                match table.set(v) {
                    Ok(()) => {},
                    Err(e) => {
                        return Err(e);
                    },
                }
                let ghost c = vv->Sequence_0;
                let mut rows = table.to_vec();
                let ghost all_rows = rows@;
                proof {
                    assert(all_rows.len() == c.len());
                    assert forall|x: int| 0 <= x < c.len() implies (#[trigger] c[x])->Sequence_0
                        == all_rows[x].row_view() by {
                        assert(all_rows[0 + x] == all_rows[x]);
                    }
                    assert(c.subrange(0, c.len() as int) =~= c);
                    match rows_spec(*self, c) {
                        Ok(es) => {
                            assert(Seq::<Study>::empty() + es =~= es);
                        },
                        Err(_) => {},
                    }
                }
                let ghost mut rdone: Seq<Study> = Seq::empty();
                let ghost done0 = done;
                proof {
                    assert(body_spec(*self, rest0) == match rows_spec(*self, c) {
                        Err(e) => Err(e),
                        Ok(es) => prepend(es, body_spec(*self, bv.subrange(pos, bv.len() as int))),
                    });
                }
                let ghost mut m: int = 0;
                while rows.len() > 0
                    invariant
                        body@ == bt,
                        bt == Tree::Sequence(bv),
                        0 <= m <= c.len(),
                        all_rows.len() == c.len(),
                        rows@ == all_rows.subrange(m, all_rows.len() as int),
                        forall|x: int|
                            0 <= x < c.len() ==> (#[trigger] c[x])->Sequence_0
                                == all_rows[x].row_view(),
                        body_packable(out),
                        out.data_struct@.len() == done0.len() + rdone.len(),
                        forall|i: int|
                            0 <= i < done0.len() + rdone.len() ==> study_matches(
                                *self,
                                #[trigger] out.data_struct@[i],
                                (done0 + rdone)[i],
                            ),
                        rows_spec(*self, c) == prepend(
                            rdone,
                            rows_spec(*self, c.subrange(m, c.len() as int)),
                        ),
                        body_spec(*self, bv) == prepend(done0, body_spec(*self, rest0)),
                        body_spec(*self, rest0) == match rows_spec(*self, c) {
                            Err(e) => Err(e),
                            Ok(es) => prepend(es, body_spec(*self, bv.subrange(pos, bv.len() as int))),
                        },
                    decreases rows@.len(),
                {
                    let e = rows.remove(0);
                    let ghost em = m;
                    let ghost rowv = c[em]->Sequence_0;
                    proof {
                        assert(e == all_rows[em]);
                        assert(rows@ =~= all_rows.subrange(m + 1, all_rows.len() as int));
                        assert(c.subrange(em, c.len() as int)[0] == c[em]);
                        assert(c.subrange(em, c.len() as int).drop_first() =~= c.subrange(
                            em + 1,
                            c.len() as int,
                        ));
                        m = m + 1;
                    }
                    match self.translate_data(e) {
                        Ok(x) => {
                            let ghost st: Study = (rowv, records_view(x.data@));
                            proof {
                                assert(row_study(*self, rowv) == Ok::<
                                    Seq<Seq<Seq<int>>>,
                                    AsnError,
                                >(records_view(x.data@)));
                                assert(study_matches(*self, x, st));
                                match rows_spec(*self, c.subrange(m, c.len() as int)) {
                                    Ok(rest) => {
                                        assert(rdone.push(st) + rest =~= rdone + (seq![st]
                                            + rest));
                                    },
                                    Err(_) => {},
                                }
                            }
                            out.data_struct.push(x);
                            proof {
                                assert(done0 + rdone.push(st) =~= (done0 + rdone).push(st));
                                rdone = rdone.push(st);
                                assert forall|i: int|
                                    0 <= i < out.data_struct@.len() implies packable(
                                    #[trigger] out.data_struct@[i].data@,
                                ) by {
                                    if i == out.data_struct@.len() - 1 {
                                        assert(out.data_struct@[i] == x);
                                    }
                                }
                                assert forall|i: int|
                                    0 <= i < done0.len() + rdone.len() implies study_matches(
                                    *self,
                                    #[trigger] out.data_struct@[i],
                                    (done0 + rdone)[i],
                                ) by {
                                    if i == out.data_struct@.len() - 1 {
                                        assert(out.data_struct@[i] == x);
                                    } else {
                                        assert((done0 + rdone)[i] == (done0 + rdone.drop_last())[i]);
                                    }
                                }
                            }
                        },
                        Err(err) => {
                            proof {
                                assert(e.row_view() == rowv);
                                assert(row_study(*self, rowv) == Err::<Seq<Seq<Seq<int>>>, AsnError>(
                                    err,
                                ));
                            }
                            return Err(err);
                        },
                    }
                }
                proof {
                    assert(c.subrange(m, c.len() as int) =~= Seq::<Tree>::empty());
                    assert(rdone + Seq::<Study>::empty() =~= rdone);
                    match body_spec(*self, bv.subrange(pos, bv.len() as int)) {
                        Ok(rest) => {
                            assert(done0 + (rdone + rest) =~= (done0 + rdone) + rest);
                        },
                        Err(_) => {},
                    }
                    done = done0 + rdone;
                }
            }
        }
        proof {
            assert(bv.subrange(pos, bv.len() as int) =~= Seq::<Tree>::empty());
            assert(done + Seq::<Study>::empty() =~= done);
        }
        Ok(out)
    }
}

/// One study as values: its row's nodes and its records' field values.
pub type Study = (Seq<Tree>, Seq<Seq<Seq<int>>>);

/// `done` before what `r` holds, or `r`'s error.
pub open spec fn prepend(done: Seq<Study>, r: Result<Seq<Study>, AsnError>) -> Result<
    Seq<Study>,
    AsnError,
> {
    match r {
        Ok(rest) => Ok(done + rest),
        Err(e) => Err(e),
    }
}

/// The node is the data structure table's path, put back to its absolute form.
pub open spec fn is_table_entry(h: DCMHeader, t: Tree) -> bool {
    match t {
        Tree::OID(a) => resolved_path(ints(expand(prefix_of(h.relative), a))) == Some(
            base() + seq![9, 6, 30],
        ),
        _ => false,
    }
}

/// The records of a data structure row: its blob sliced by the field table.
pub open spec fn row_study(h: DCMHeader, row: Seq<Tree>) -> Result<Seq<Seq<Seq<int>>>, AsnError> {
    match table_error(h, h.content@.len()) {
        Some(e) => Err(e),
        None => match parse_records(table_widths(h), row[6]->OctetString_0) {
            Some(rs) => Ok(rs),
            None => Err(AsnError::TruncatedRecord),
        },
    }
}

/// The studies of the rows of a table, in row order.
pub open spec fn rows_spec(h: DCMHeader, rows: Seq<Tree>) -> Result<Seq<Study>, AsnError>
    decreases rows.len(),
{
    if rows.len() == 0 {
        Ok(Seq::empty())
    } else {
        match row_study(h, rows[0]->Sequence_0) {
            Err(e) => Err(e),
            Ok(rs) => prepend(seq![(rows[0]->Sequence_0, rs)], rows_spec(h, rows.drop_first())),
        }
    }
}

/// The studies that the body's entries give, in order.
pub open spec fn body_spec(h: DCMHeader, items: Seq<Tree>) -> Result<Seq<Study>, AsnError>
    decreases items.len(),
{
    if items.len() == 0 {
        Ok(Seq::empty())
    } else if is_table_entry(h, items[0]) && items.len() >= 2 {
        match items[1] {
            Tree::Sequence(c) => if forall|i: int|
                0 <= i < c.len() ==> crate::oid::registry::is_row_node(#[trigger] c[i]) {
                match rows_spec(h, c) {
                    Err(e) => Err(e),
                    Ok(es) => prepend(es, body_spec(h, items.subrange(2, items.len() as int))),
                }
            } else {
                Err(AsnError::TypeMismatch)
            },
            _ => Err(AsnError::TypeMismatch),
        }
    } else {
        body_spec(h, items.drop_first())
    }
}

/// A study's fields are its row's, its records are the row's slicing, and
/// they pack back into the row's blob.
pub open spec fn study_matches(h: DCMHeader, x: DCMDataStructEntry, st: Study) -> bool {
    let (row, rs) = st;
    &&& row.len() == 7
    &&& row[0] == Tree::Integer(x.ds_study_num.content)
    &&& row[1] == Tree::Integer(x.data_struc_index.content)
    &&& row[2] == Tree::Application(x.start_time.content@)
    &&& row[3] == Tree::Application(x.end_time.content@)
    &&& row[4] == Tree::Integer(x.data_num_records.content)
    &&& row[5] == Tree::Integer(x.data_encoding.content)
    &&& row[6] == Tree::OctetString(pack_spec(x.data@))
    &&& records_view(x.data@) == rs
    &&& follows_places(h, x.data@)
}

/// Only the data structure table's leaf has the data structure table's path.
proof fn lemma_table_path(d: Device)
    requires
        device_path(d) == base() + seq![9, 6, 30],
    ensures
        d matches Device::DCM(Dcm::StudyDataSetup(StudyDataSetup::DataStructureTable(_))),
{
    let q = device_path(d);
    let t = base() + seq![9, 6, 30];
    assert(t.len() == 12 && t[9] == 9 && t[10] == 6 && t[11] == 30);
    match d {
        Device::DCM(x) => {
            match x {
                Dcm::VehCriteria(v) => {
                    assert(q[10] != 6 || q.len() != 12);
                },
                Dcm::StudyDataSetup(y) => {
                    assert(q[11] == crate::oid::registry::study_data_arc(y));
                },
                _ => {
                    assert(q.len() != 12 || q[10] != 6);
                },
            }
        },
        _ => {
            assert(q.len() != 12 || q[9] != 9);
        },
    }
}

/// One study's rows of records, with the row's own fields.
#[derive(Clone, Debug, PartialEq, Eq)]
pub struct DCMDataStructEntry {
    pub ds_study_num: Integer,
    pub data_struc_index: Integer,
    pub start_time: Application,
    pub end_time: Application,
    pub data_num_records: Integer,
    pub data_encoding: Integer,
    pub data: Vec<Vec<Device>>,
}

/// The predicate takes every leaf and gives one answer for each.
pub open spec fn decides<F: Fn(&Device) -> bool>(f: F) -> bool {
    &&& forall|d: &Device| #[trigger] f.requires((d,))
    &&& forall|d: &Device|
        #![trigger f.ensures((d,), true)]
        #![trigger f.ensures((d,), false)]
        !(f.ensures((d,), true) && f.ensures((d,), false))
}

/// The predicate holds of some leaf of the record.
pub open spec fn has_match<F: Fn(&Device) -> bool>(r: Seq<Device>, f: F) -> bool {
    exists|j: int| 0 <= j < r.len() && #[trigger] f.ensures((&r[j],), true)
}

/// The records of which the predicate holds of no leaf, in order.
pub open spec fn kept<F: Fn(&Device) -> bool>(rs: Seq<Vec<Device>>, f: F) -> Seq<Vec<Device>>
    decreases rs.len(),
{
    if rs.len() == 0 {
        Seq::empty()
    } else if has_match(rs.last()@, f) {
        kept(rs.drop_last(), f)
    } else {
        kept(rs.drop_last(), f).push(rs.last())
    }
}

fn record_has<F: Fn(&Device) -> bool>(r: &Vec<Device>, filter: &F) -> (b: bool)
    requires
        decides(*filter),
    ensures
        b == has_match(r@, *filter),
{
    let mut j: usize = 0;
    while j < r.len()
        invariant
            j <= r@.len(),
            decides(*filter),
            forall|x: int| 0 <= x < j ==> !(#[trigger] filter.ensures((&r@[x],), true)),
        decreases r@.len() - j,
    {
        if filter(&r[j]) {
            return true;
        }
        j += 1;
    }
    false
}

impl DCMDataStructEntry {
    /// A row's fields with the records sliced from its blob.
    pub fn new(entry: DataStructureEntry, data: Vec<Vec<Device>>) -> (r: Self)
        ensures
            r.ds_study_num == entry.ds_study_num,
            r.data_struc_index == entry.data_struc_index,
            r.start_time == entry.start_time,
            r.end_time == entry.end_time,
            r.data_num_records == entry.data_num_records,
            r.data_encoding == entry.data_encoding,
            r.data == data,
    {
        DCMDataStructEntry {
            ds_study_num: entry.ds_study_num,
            data_struc_index: entry.data_struc_index,
            start_time: entry.start_time,
            end_time: entry.end_time,
            data_num_records: entry.data_num_records,
            data_encoding: entry.data_encoding,
            data,
        }
    }

    /// Removes every record of which `filter` holds for some leaf, keeping the
    /// others in order, and sets the record count to what is left.
    #[verifier::rlimit(40)]
    pub fn filter_remove<F: Fn(&Device) -> bool>(&mut self, filter: F)
        requires
            old(self).data@.len() < 0x8000_0000_0000_0000,
            decides(filter),
        ensures
            final(self).data@ == kept(old(self).data@, filter),
            final(self).data_num_records.content == final(self).data@.len(),
            final(self).ds_study_num == old(self).ds_study_num,
            final(self).data_struc_index == old(self).data_struc_index,
            final(self).start_time == old(self).start_time,
            final(self).end_time == old(self).end_time,
            final(self).data_encoding == old(self).data_encoding,
    {
        let mut old_data: Vec<Vec<Device>> = Vec::new();
        std::mem::swap(&mut old_data, &mut self.data);
        let ghost all = old_data@;
        let mut rev: Vec<Vec<Device>> = Vec::new();
        while old_data.len() > 0
            invariant
                all == old(self).data@,
                decides(filter),
                kept(all, filter) == kept(old_data@, filter) + rev@.reverse(),
            decreases old_data@.len(),
        {
            let r = old_data.pop().unwrap();
            let ghost before = old_data@.push(r);
            assert(before.drop_last() =~= old_data@);
            if !record_has(&r, &filter) {
                proof {
                    assert(rev@.push(r).reverse() =~= seq![r] + rev@.reverse());
                    assert(kept(before, filter) == kept(old_data@, filter).push(r));
                    assert(kept(old_data@, filter).push(r) + rev@.reverse() =~= kept(
                        old_data@,
                        filter,
                    ) + rev@.push(r).reverse());
                }
                rev.push(r);
            }
        }
        let mut out: Vec<Vec<Device>> = Vec::new();
        while rev.len() > 0
            invariant
                all == old(self).data@,
                kept(all, filter) == out@ + rev@.reverse(),
            decreases rev@.len(),
        {
            let r = rev.pop().unwrap();
            proof {
                let before = rev@.push(r);
                assert(before.reverse() =~= seq![r] + rev@.reverse());
                assert(out@.push(r) + rev@.reverse() =~= out@ + before.reverse());
            }
            out.push(r);
        }
        assert(out@ + rev@.reverse() =~= out@);
        assert(kept(old(self).data@, filter).len() <= old(self).data@.len()) by {
            lemma_kept_len(old(self).data@, filter);
        }
        let n = out.len();
        self.data = out;
        self.data_num_records = Integer { content: n as i64 };
    }

    /// The places of the records of which `filter` holds for some leaf, in
    /// increasing order.
    #[verifier::rlimit(40)]
    pub fn filter_mut<F: Fn(&Device) -> bool>(&self, filter: F) -> (r: Vec<usize>)
        requires
            decides(filter),
        ensures
            forall|i: int| 0 <= i < r@.len() ==> #[trigger] r@[i] < self.data@.len(),
            forall|i: int, j: int| 0 <= i < j < r@.len() ==> r@[i] < r@[j],
            forall|i: int|
                0 <= i < self.data@.len() ==> (has_match(#[trigger] self.data@[i]@, filter)
                    <==> r@.contains(i as usize)),
    {
        let mut r: Vec<usize> = Vec::new();
        let mut i: usize = 0;
        while i < self.data.len()
            invariant
                i <= self.data@.len(),
                forall|x: int| 0 <= x < r@.len() ==> #[trigger] r@[x] < i,
                forall|x: int, y: int| 0 <= x < y < r@.len() ==> r@[x] < r@[y],
                decides(filter),
                forall|x: int|
                    0 <= x < i ==> (has_match(#[trigger] self.data@[x]@, filter) <==> r@.contains(
                        x as usize,
                    )),
            decreases self.data@.len() - i,
        {
            let ghost old_r = r@;
            let h = record_has(&self.data[i], &filter);
            if h {
                r.push(i);
            }
            proof {
                assert forall|x: int| 0 <= x < i + 1 implies (has_match(
                    #[trigger] self.data@[x]@,
                    filter,
                ) <==> r@.contains(x as usize)) by {
                    if x < i {
                        if old_r.contains(x as usize) {
                            let y = choose|y: int| 0 <= y < old_r.len() && old_r[y] == x as usize;
                            assert(r@[y] == x as usize);
                        }
                        if r@.contains(x as usize) {
                            let y = choose|y: int| 0 <= y < r@.len() && r@[y] == x as usize;
                            if y < old_r.len() {
                                assert(old_r[y] == x as usize);
                            } else {
                                assert(r@[y] == i);
                            }
                        }
                    } else {
                        if h {
                            assert(r@[r@.len() - 1] == i);
                        } else {
                            if r@.contains(x as usize) {
                                let y = choose|y: int| 0 <= y < r@.len() && r@[y] == x as usize;
                                assert(old_r[y] < i);
                            }
                        }
                    }
                }
                assert forall|x: int| 0 <= x < r@.len() implies #[trigger] r@[x] < i + 1 by {
                    if x < old_r.len() {
                        assert(old_r[x] < i);
                    }
                }
            }
            i += 1;
        }
        r
    }

    /// The row as a sequence node, its records packed back into the blob.
    pub fn to_sequence(&self) -> (r: Sequence)
        requires
            packable(self.data@),
        ensures
            ASN::Sequence(r)@ == Tree::Sequence(
                seq![
                    Tree::Integer(self.ds_study_num.content),
                    Tree::Integer(self.data_struc_index.content),
                    Tree::Application(self.start_time.content@),
                    Tree::Application(self.end_time.content@),
                    Tree::Integer(self.data_num_records.content),
                    Tree::Integer(self.data_encoding.content),
                    Tree::OctetString(pack_spec(self.data@)),
                ],
            ),
    {
        let data = pack_records(&self.data);
        let mut content: Vec<ASN> = Vec::new();
        content.push(ASN::Integer(self.ds_study_num));
        content.push(ASN::Integer(self.data_struc_index));
        content.push(ASN::Application(Application { content: copy_bytes(&self.start_time.content) }));
        content.push(ASN::Application(Application { content: copy_bytes(&self.end_time.content) }));
        content.push(ASN::Integer(self.data_num_records));
        content.push(ASN::Integer(self.data_encoding));
        content.push(ASN::OctetString(OctetString { content: data }));
        proof {
            assert(content@[0]@ == Tree::Integer(self.ds_study_num.content));
            assert(content@[1]@ == Tree::Integer(self.data_struc_index.content));
            assert(content@[2]@ == Tree::Application(self.start_time.content@));
            assert(content@[3]@ == Tree::Application(self.end_time.content@));
            assert(content@[4]@ == Tree::Integer(self.data_num_records.content));
            assert(content@[5]@ == Tree::Integer(self.data_encoding.content));
            assert(content@[6]@ == Tree::OctetString(pack_spec(self.data@)));
        }
        let r = Sequence { content };
        proof {
            match ASN::Sequence(r)@ {
                Tree::Sequence(v) => {
                    assert(v =~= seq![
                        Tree::Integer(self.ds_study_num.content),
                        Tree::Integer(self.data_struc_index.content),
                        Tree::Application(self.start_time.content@),
                        Tree::Application(self.end_time.content@),
                        Tree::Integer(self.data_num_records.content),
                        Tree::Integer(self.data_encoding.content),
                        Tree::OctetString(pack_spec(self.data@)),
                    ]);
                },
                _ => {},
            }
        }
        r
    }
}

proof fn lemma_kept_len<F: Fn(&Device) -> bool>(rs: Seq<Vec<Device>>, f: F)
    ensures
        kept(rs, f).len() <= rs.len(),
    decreases rs.len(),
{
    if rs.len() > 0 {
        lemma_kept_len(rs.drop_last(), f);
    }
}

/// The body: one entry per study of the data structure table.
#[derive(Clone, Debug, PartialEq, Eq)]
pub struct DCMBody {
    pub data_struct: Vec<DCMDataStructEntry>,
}

impl DCMBody {
    /// Adds a study at the end.
    pub fn set(&mut self, v: DCMDataStructEntry)
        ensures
            final(self).data_struct@ == old(self).data_struct@.push(v),
    {
        self.data_struct.push(v);
    }
}

/// A path as an object-identifier node.
fn path_node(p: Vec<i64>) -> (r: ASN)
    ensures
        r@ == Tree::OID(p@),
{
    ASN::OID(AsnOID { content: p })
}

/// The vendor prefix as arcs.
pub open spec fn base_arcs() -> Seq<i64> {
    seq![1i64, 3, 6, 1, 4, 1, 1206, 4, 2]
}

/// The vendor prefix followed by `tail`.
fn absolute_path(tail: Vec<i64>) -> (r: Vec<i64>)
    ensures
        ints(r@) == base() + ints(tail@),
        r@ == base_arcs() + tail@,
{
    let mut r = crate::oid::registry::base_path();
    let ghost b = r@;
    let mut i: usize = 0;
    while i < tail.len()
        invariant
            i <= tail@.len(),
            ints(b) == base(),
            r@ == b + tail@.subrange(0, i as int),
        decreases tail@.len() - i,
    {
        r.push(tail[i]);
        i += 1;
        assert(r@ =~= b + tail@.subrange(0, i as int));
    }
    assert(ints(r@) =~= base() + ints(tail@));
    assert(b =~= base_arcs()) by {
        assert forall|x: int| 0 <= x < 9 implies b[x] == base_arcs()[x] by {
            assert(ints(b)[x] == b[x] as int);
        }
    }
    assert(r@ =~= base_arcs() + tail@);
    r
}

/// The place in `c` of the first row standing at place `k + 1`; -1 for none.
pub open spec fn first_row(c: Seq<PvrStudyConfigEntry>, k: int) -> int
    decreases c.len(),
{
    if c.len() == 0 {
        -1
    } else {
        let f = first_row(c.drop_last(), k);
        if f >= 0 {
            f
        } else if c.last().pvr_study_index.content == k + 1 {
            c.len() - 1
        } else {
            -1
        }
    }
}

/// The path of the leaf at `tail` under the vendor prefix, written short.
pub open spec fn short_path(h: DCMHeader, tail: Seq<i64>) -> Tree {
    Tree::OID(compress(prefix_of(h.relative), base_arcs() + tail))
}

/// The entries for the prefix and the site texts.
pub open spec fn head_entries(h: DCMHeader) -> Seq<Tree> {
    (if h.relative.0 is Some && h.relative.0->Some_0.content@.len() > 0 {
        seq![
            Tree::OID(base_arcs() + seq![9i64, 9]),
            Tree::OID(h.relative.0->Some_0.content@),
        ]
    } else {
        Seq::empty()
    }) + (if h.site_id.id@.len() > 0 {
        seq![short_path(h, seq![9i64, 4, 1]), Tree::OctetString(h.site_id.id@)]
    } else {
        Seq::empty()
    }) + (if h.site_description.description@.len() > 0 {
        seq![
            short_path(h, seq![9i64, 4, 3]),
            Tree::OctetString(h.site_description.description@),
        ]
    } else {
        Seq::empty()
    })
}

/// The entries for the study configuration rows.
pub open spec fn config_entries(h: DCMHeader, cs: Seq<StudyConfig>) -> Seq<Tree>
    decreases cs.len(),
{
    if cs.len() == 0 {
        Seq::empty()
    } else {
        config_entries(h, cs.drop_last()) + match cs.last() {
            StudyConfig::StudyConfigTable(c) => seq![
                short_path(h, seq![9i64, 5, 5]),
                Tree::Sequence(c.row_view()),
            ],
            StudyConfig::Unknown => Seq::empty(),
        }
    }
}

/// The entries for the field table's places 1 to `k`, in place order.
pub open spec fn row_entries(h: DCMHeader, k: nat) -> Seq<Tree>
    decreases k,
{
    if k == 0 {
        Seq::empty()
    } else {
        let j = first_row(h.content@, k - 1);
        row_entries(h, (k - 1) as nat) + if j >= 0 {
            seq![short_path(h, seq![9i64, 6, 14]), Tree::Sequence(h.content@[j].row_view())]
        } else {
            Seq::empty()
        }
    }
}

/// All entries of the header, in the order they are written.
pub open spec fn header_entries(h: DCMHeader) -> Seq<Tree> {
    head_entries(h) + config_entries(h, h.config.study_config_table@) + row_entries(
        h,
        h.content@.len(),
    )
}

impl DCMHeader {
    /// The place in the field table of the first row at place `k + 1`.
    fn find_row(&self, k: usize) -> (r: Option<usize>)
        ensures
            match r {
                Some(j) => j as int == first_row(self.content@, k as int) && j < self.content@.len(),
                None => first_row(self.content@, k as int) == -1,
            },
    {
        let n = self.content.len();
        let mut found: Option<usize> = None;
        let mut j: usize = 0;
        while j < n
            invariant
                j <= n,
                n == self.content@.len(),
                match found {
                    Some(x) => x as int == first_row(self.content@.subrange(0, j as int), k as int)
                        && x < j,
                    None => first_row(self.content@.subrange(0, j as int), k as int) == -1,
                },
            decreases n - j,
        {
            let place = self.content[j].pvr_study_index.content;
            proof {
                let c = self.content@.subrange(0, j + 1);
                assert(c.drop_last() =~= self.content@.subrange(0, j as int));
                assert(c.last() == self.content@[j as int]);
            }
            if found.is_none() && place > 0 && (place - 1) as u64 == k as u64 {
                found = Some(j);
            }
            j += 1;
        }
        assert(self.content@.subrange(0, n as int) =~= self.content@);
        found
    }

    /// The header as its sequence: one child holding the entries, a path and
    /// its value after one another. The prefix comes first; the other paths
    /// are written short against it.
    #[verifier::rlimit(40)]
    pub fn to_sequence(&self) -> (r: Sequence)
        ensures
            ASN::Sequence(r)@ == Tree::Sequence(seq![Tree::Sequence(header_entries(*self))]),
    {
        let mut s: Vec<ASN> = Vec::new();
        let ghost h = *self;
        if let Some(prefix) = &self.relative.0 {
            if prefix.content.len() > 0 {
                let abs = absolute_path(vec![9, 9]);
                assert(abs@ =~= base_arcs() + seq![9i64, 9]);
                s.push(path_node(abs));
                s.push(path_node(copy_arcs(&prefix.content)));
            }
        }
        if self.site_id.id.len() > 0 {
            let abs = absolute_path(vec![9, 4, 1]);
            assert(abs@ =~= base_arcs() + seq![9i64, 4, 1]);
            let p = self.to_relative(&abs);
            s.push(path_node(p));
            s.push(ASN::OctetString(OctetString { content: copy_bytes(&self.site_id.id) }));
        }
        if self.site_description.description.len() > 0 {
            let abs = absolute_path(vec![9, 4, 3]);
            assert(abs@ =~= base_arcs() + seq![9i64, 4, 3]);
            let p = self.to_relative(&abs);
            s.push(path_node(p));
            s.push(
                ASN::OctetString(
                    OctetString { content: copy_bytes(&self.site_description.description) },
                ),
            );
        }
        assert(views(s@) =~= head_entries(h));
        let ghost head = views(s@);
        let cs = &self.config.study_config_table;
        let mut i: usize = 0;
        while i < cs.len()
            invariant
                h == *self,
                *cs == self.config.study_config_table,
                i <= cs@.len(),
                head == head_entries(h),
                views(s@) == head + config_entries(h, cs@.subrange(0, i as int)),
            decreases cs@.len() - i,
        {
            let ghost before = views(s@);
            proof {
                assert(cs@.subrange(0, i + 1).drop_last() =~= cs@.subrange(0, i as int));
                assert(cs@.subrange(0, i + 1).last() == cs@[i as int]);
            }
            if let StudyConfig::StudyConfigTable(c) = &cs[i] {
                let abs = absolute_path(vec![9, 5, 5]);
                assert(abs@ =~= base_arcs() + seq![9i64, 5, 5]);
                let p = self.to_relative(&abs);
                s.push(path_node(p));
                let row = c.to_sequence();
                s.push(ASN::Sequence(row));
                assert(views(s@) =~= before + seq![
                    short_path(h, seq![9i64, 5, 5]),
                    Tree::Sequence(c.row_view()),
                ]);
            } else {
                assert(views(s@) =~= before + Seq::<Tree>::empty());
            }
            i += 1;
        }
        assert(cs@.subrange(0, cs@.len() as int) =~= cs@);
        let ghost mid = views(s@);
        let n = self.content.len();
        let mut k: usize = 0;
        while k < n
            invariant
                h == *self,
                n == self.content@.len(),
                k <= n,
                mid == head_entries(h) + config_entries(h, h.config.study_config_table@),
                views(s@) == mid + row_entries(h, k as nat),
            decreases n - k,
        {
            let ghost before = views(s@);
            match self.find_row(k) {
                Some(j) => {
                    let abs = absolute_path(vec![9, 6, 14]);
                    assert(abs@ =~= base_arcs() + seq![9i64, 6, 14]);
                    let p = self.to_relative(&abs);
                    s.push(path_node(p));
                    let row = self.content[j].to_sequence();
                    s.push(ASN::Sequence(row));
                    assert(views(s@) =~= before + seq![
                        short_path(h, seq![9i64, 6, 14]),
                        Tree::Sequence(h.content@[j as int].row_view()),
                    ]);
                },
                None => {
                    assert(views(s@) =~= before + Seq::<Tree>::empty());
                },
            }
            k += 1;
            assert(views(s@) =~= mid + row_entries(h, k as nat));
        }
        let inner = ASN::Sequence(Sequence { content: s });
        proof {
            match inner@ {
                Tree::Sequence(v) => {
                    assert(v =~= views(s@));
                },
                _ => {},
            }
        }
        let mut outer: Vec<ASN> = Vec::new();
        outer.push(inner);
        let r = Sequence { content: outer };
        proof {
            match ASN::Sequence(r)@ {
                Tree::Sequence(v) => {
                    assert(v =~= seq![Tree::Sequence(header_entries(*self))]);
                },
                _ => {},
            }
        }
        r
    }
}

/// The node a study's row is written as.
pub open spec fn entry_view(e: DCMDataStructEntry) -> Tree {
    Tree::Sequence(
        seq![
            Tree::Integer(e.ds_study_num.content),
            Tree::Integer(e.data_struc_index.content),
            Tree::Application(e.start_time.content@),
            Tree::Application(e.end_time.content@),
            Tree::Integer(e.data_num_records.content),
            Tree::Integer(e.data_encoding.content),
            Tree::OctetString(pack_spec(e.data@)),
        ],
    )
}

/// Every study's records can be written.
pub open spec fn body_packable(b: DCMBody) -> bool {
    forall|i: int| 0 <= i < b.data_struct@.len() ==> packable(#[trigger] b.data_struct@[i].data@)
}

impl DCMBody {
    /// The body as its sequence: the data structure table's path, written
    /// short, then its rows.
    pub fn to_sequence(&self, header: &DCMHeader) -> (r: Sequence)
        requires
            body_packable(*self),
        ensures
            r.content@.len() == 2,
            r.content@[0]@ == Tree::OID(
                compress(prefix_of(header.relative), base_arcs() + seq![9i64, 6, 30]),
            ),
            r.content@[1]@ == Tree::Sequence(
                self.data_struct@.map_values(|e: DCMDataStructEntry| entry_view(e)),
            ),
    {
        let abs = absolute_path(vec![9, 6, 30]);
        assert(abs@ =~= base_arcs() + seq![9i64, 6, 30]);
        let p = header.to_relative(&abs);
        let mut rows: Vec<ASN> = Vec::new();
        let mut i: usize = 0;
        while i < self.data_struct.len()
            invariant
                i <= self.data_struct@.len(),
                rows@.len() == i,
                body_packable(*self),
                forall|x: int| 0 <= x < i ==> (#[trigger] rows@[x])@ == entry_view(self.data_struct@[x]),
            decreases self.data_struct@.len() - i,
        {
            let row = self.data_struct[i].to_sequence();
            rows.push(ASN::Sequence(row));
            i += 1;
        }
        let mut content: Vec<ASN> = Vec::new();
        content.push(path_node(p));
        let node = ASN::Sequence(Sequence { content: rows });
        proof {
            match node@ {
                Tree::Sequence(v) => {
                    assert(v =~= self.data_struct@.map_values(|e: DCMDataStructEntry| entry_view(e)));
                },
                _ => {},
            }
        }
        content.push(node);
        Sequence { content }
    }
}

/// A whole module file: its MIB version, header and body.
#[derive(Clone, Debug, PartialEq, Eq)]
pub struct DCM {
    pub version: MibVersionNumber,
    pub header: DCMHeader,
    pub body: DCMBody,
}

/// The first child of a root is the path of the MIB version leaf.
pub open spec fn version_path_ok(c: Seq<ASN>) -> bool {
    c.len() > 0 && match c[0]@ {
        Tree::OID(a) => resolved_path(ints(a)) == Some(base() + seq![9, 10]),
        _ => false,
    }
}

/// The entries of a header node: the children of its first child, where
/// that is a sequence.
pub open spec fn header_items(t: Tree) -> Option<Seq<Tree>> {
    match t {
        Tree::Sequence(c) => if c.len() > 0 {
            match c[0] {
                Tree::Sequence(items) => Some(items),
                _ => None,
            }
        } else {
            None
        },
        _ => None,
    }
}

/// The first `n` bytes of `s`, or all of it where it is shorter.
pub open spec fn take_bytes(s: Seq<u8>, n: nat) -> Seq<u8> {
    if s.len() > n {
        s.subrange(0, n as int)
    } else {
        s
    }
}

/// The longest site identifier a file keeps, in bytes.
pub const SITE_ID_MAX: usize = 40;

impl DCM {
    /// A file with version 0, an empty header and no studies.
    pub fn new() -> (r: Self)
        ensures
            r.version.version.content == 0,
            r.body.data_struct@.len() == 0,
            r.header.content@.len() == 0,
    {
        DCM {
            version: MibVersionNumber { version: Integer { content: 0 } },
            header: DCMHeader::empty(),
            body: DCMBody { data_struct: Vec::new() },
        }
    }

    pub fn set_version(&mut self, value: i64)
        ensures
            final(self).version.version.content == value,
            final(self).header == old(self).header,
            final(self).body == old(self).body,
    {
        self.version.set(ASN::Integer(Integer { content: value }));
    }

    /// Sets the site identifier to the bytes of `site_id`, cut to its first
    /// forty bytes.
    pub fn set_site_id(&mut self, site_id: &str)
        ensures
            final(self).header.site_id.id@ == take_bytes(site_id.spec_bytes(), 40),
            final(self).header.site_description == old(self).header.site_description,
            final(self).header.content == old(self).header.content,
            final(self).body == old(self).body,
            final(self).version == old(self).version,
            final(self).header.config == old(self).header.config,
            final(self).header.relative == old(self).header.relative,
    {
        let b = site_id.as_bytes();
        let n = if b.len() > SITE_ID_MAX {
            SITE_ID_MAX
        } else {
            b.len()
        };
        let id = copy_range(b, 0, n);
        assert(b@.len() <= 40 ==> b@.subrange(0, n as int) =~= b@);
        self.header.site_id.set(ASN::OctetString(OctetString { content: id }));
    }

    /// Sets the site description to the bytes of `site_description`.
    pub fn set_site_description(&mut self, site_description: &str)
        ensures
            final(self).header.site_description.description@ == site_description.spec_bytes(),
            final(self).header.site_id == old(self).header.site_id,
            final(self).header.content == old(self).header.content,
            final(self).body == old(self).body,
            final(self).version == old(self).version,
            final(self).header.config == old(self).header.config,
            final(self).header.relative == old(self).header.relative,
    {
        let b = site_description.as_bytes();
        let d = copy_range(b, 0, b.len());
        assert(b@.subrange(0, b@.len() as int) =~= b@);
        self.header.site_description.set(ASN::OctetString(OctetString { content: d }));
    }

    /// The file as its root sequence: the version's path and value, the
    /// header, the body.
    #[verifier::rlimit(40)]
    pub fn to_sequence(&self) -> (r: Sequence)
        requires
            body_packable(self.body),
        ensures
            r.content@.len() == 4,
            r.content@[0]@ == Tree::OID(base_arcs() + seq![9i64, 10]),
            r.content@[2]@ == Tree::Sequence(seq![Tree::Sequence(header_entries(self.header))]),
            r.content@[1]@ == Tree::Integer(self.version.version.content),
            r.content@[3]@ == Tree::Sequence(
                seq![
                    Tree::OID(compress(prefix_of(self.header.relative), base_arcs() + seq![9i64, 6, 30])),
                    Tree::Sequence(
                        self.body.data_struct@.map_values(|e: DCMDataStructEntry| entry_view(e)),
                    ),
                ],
            ),
    {
        let body = self.body.to_sequence(&self.header);
        let header = self.header.to_sequence();
        let mut content: Vec<ASN> = Vec::new();
        let vp = absolute_path(vec![9, 10]);
        assert(vp@ =~= base_arcs() + seq![9i64, 10]);
        content.push(path_node(vp));
        content.push(ASN::Integer(Integer { content: self.version.version.content }));
        content.push(ASN::Sequence(header));
        let body_node = ASN::Sequence(body);
        proof {
            match body_node@ {
                Tree::Sequence(v) => {
                    assert(v[0] == body.content@[0]@);
                    assert(v[1] == body.content@[1]@);
                    assert(v =~= seq![
                        Tree::OID(
                            compress(prefix_of(self.header.relative), base_arcs() + seq![9i64, 6, 30]),
                        ),
                        Tree::Sequence(
                            self.body.data_struct@.map_values(|e: DCMDataStructEntry| entry_view(e)),
                        ),
                    ]);
                },
                _ => {},
            }
        }
        content.push(body_node);
        Sequence { content }
    }

    /// Reads a file from its root sequence: the version's path and value, the
    /// header, then the body. A root whose first child is not the version's
    /// path, or that lacks a header whose first child is a sequence, is
    /// missing a required field; a body that is not a sequence is a type
    /// mismatch.
    #[verifier::rlimit(60)]
    pub fn from_sequence(root: Sequence) -> (r: Result<DCM, AsnError>)
        ensures
            root.content@.len() < 4 ==> r == Err::<DCM, AsnError>(AsnError::MissingRequiredField),
            root.content@.len() >= 4 && !version_path_ok(root.content@) ==> r == Err::<
                DCM,
                AsnError,
            >(AsnError::MissingRequiredField),
            root.content@.len() >= 4 && version_path_ok(root.content@) ==> match header_items(
                root.content@[2]@,
            ) {
                None => r == Err::<DCM, AsnError>(AsnError::MissingRequiredField),
                Some(items) => match pairs_fold(empty_view(), items) {
                    Err(e) => r == Err::<DCM, AsnError>(e),
                    Ok(v) => match root.content@[3]@ {
                        Tree::Sequence(bitems) => match r {
                            Ok(d) => {
                                &&& hview(d.header) == v
                                &&& d.version.version.content == match root.content@[1]@ {
                                    Tree::Integer(x) => x,
                                    _ => 0,
                                }
                                &&& body_packable(d.body)
                                &&& body_spec(d.header, bitems) matches Ok(es) && d.body.data_struct@.len()
                                    == es.len() && forall|i: int|
                                    0 <= i < es.len() ==> study_matches(
                                        d.header,
                                        #[trigger] d.body.data_struct@[i],
                                        es[i],
                                    )
                            },
                            Err(e) => exists|h: DCMHeader|
                                hview(h) == v && #[trigger] body_spec(h, bitems) == Err::<
                                    Seq<Study>,
                                    AsnError,
                                >(e),
                        },
                        _ => r == Err::<DCM, AsnError>(AsnError::TypeMismatch),
                    },
                },
            },
    {
        let mut values = root.content;
        if values.len() < 4 {
            return Err(AsnError::MissingRequiredField);
        }
        let ghost rv = values@;
        let first = values.remove(0);
        let path = match first {
            ASN::OID(o) => o,
            _ => {
                return Err(AsnError::MissingRequiredField);
            },
        };
        let version = match crate::oid::registry::resolve(path.content.as_slice()) {
            Ok(Device::DCM(Dcm::MibVersionNumber(m))) => {
                assert(device_path(Device::DCM(Dcm::MibVersionNumber(m))) =~= base() + seq![9, 10]);
                assert(rv == root.content@);
                assert(rv[0]@ == Tree::OID(path.content@));
                assert(version_path_ok(root.content@));
                let vn = values.remove(0);
                assert(vn == rv[1]);
                MibVersionNumber::new(vn)
            },
            Ok(d) => {
                proof {
                    let q = device_path(d);
                    if q == base() + seq![9, 10] {
                        assert(q.len() == 11);
                        assert(q[10] == 10);
                    }
                }
                return Err(AsnError::MissingRequiredField);
            },
            Err(_) => {
                return Err(AsnError::MissingRequiredField);
            },
        };
        let hn = values.remove(0);
        assert(hn == rv[2]);
        let header = match hn {
            ASN::Sequence(q) => {
                proof {
                    match ASN::Sequence(q)@ {
                        Tree::Sequence(c) => {
                            assert(c =~= views(q.content@));
                            if q.content@.len() > 0 {
                                assert(c[0] == q.content@[0]@);
                            }
                        },
                        _ => {},
                    }
                }
                DCMHeader::new(q)
            },
            _ => Err(AsnError::MissingRequiredField),
        };
        let header = match header {
            Ok(h) => h,
            Err(e) => {
                return Err(e);
            },
        };
        let bn = values.remove(0);
        assert(bn == rv[3]);
        let body = match header.read_body(bn) {
            Ok(b) => b,
            Err(e) => {
                return Err(e);
            },
        };
        Ok(DCM { version, header, body })
    }
}

/// The header is one that writing out and reading back keeps: its prefix,
/// if any, is not empty, its configuration rows are all table rows and its
/// field-table rows stand at places 1, 2, ... in order.
pub open spec fn canonical_header(h: DCMHeader) -> bool {
    &&& (h.relative.0 is None || h.relative.0->Some_0.content@.len() > 0)
    &&& forall|i: int|
        0 <= i < h.config.study_config_table@.len() ==> (#[trigger] h.config.study_config_table@[i]) is StudyConfigTable
    &&& forall|j: int|
        0 <= j < h.content@.len() ==> (#[trigger] h.content@[j]).pvr_study_index.content == j + 1
}

proof fn lemma_fold_concat(v: HeaderView, a: Seq<Tree>, b: Seq<Tree>)
    requires
        a.len() % 2 == 0,
    ensures
        pairs_fold(v, a + b) == match pairs_fold(v, a) {
            Ok(v2) => pairs_fold(v2, b),
            Err(e) => Err(e),
        },
    decreases a.len(),
{
    if a.len() == 0 {
        assert(a + b =~= b);
    } else {
        let ab = a + b;
        assert(ab[0] == a[0] && ab[1] == a[1]);
        let a2 = a.subrange(2, a.len() as int);
        assert(ab.subrange(2, ab.len() as int) =~= a2 + b);
        let step = match a[0] {
            Tree::OID(x) => add_spec(v, x, Some(a[1])),
            _ => Ok(v),
        };
        match step {
            Ok(v2) => {
                lemma_fold_concat(v2, a2, b);
            },
            Err(_) => {},
        }
    }
}

proof fn lemma_pair_fold(v: HeaderView, x: Seq<i64>, val: Tree)
    ensures
        pairs_fold(v, seq![Tree::OID(x), val]) == add_spec(v, x, Some(val)),
{
    let s = seq![Tree::OID(x), val];
    assert(s.subrange(2, 2) =~= Seq::<Tree>::empty());
    assert(s[0] == Tree::OID(x) && s[1] == val);
    match add_spec(v, x, Some(val)) {
        Ok(h2) => {
            assert(pairs_fold(h2, Seq::<Tree>::empty()) == Ok::<HeaderView, AsnError>(h2));
        },
        Err(_) => {},
    }
}

/// A path under the vendor prefix, written short and put back, reads as
/// itself.
proof fn lemma_short_path(prefix: Option<Seq<i64>>, tail: Seq<i64>)
    requires
        prefix is None || prefix->Some_0.len() > 0,
    ensures
        ints(expand(prefix, compress(prefix, base_arcs() + tail))) == base() + ints(tail),
{
    let q = base_arcs() + tail;
    match prefix {
        Some(p) => {
            if p.len() <= q.len() && q.subrange(0, p.len() as int) == p {
                law_relative_round_trip(p, q);
            } else {
                assert(q[0] == 1);
            }
        },
        None => {},
    }
    assert(ints(q) =~= base() + ints(tail));
}

proof fn lemma_actions()
    ensures
        header_action(base() + seq![9, 9]) is Relative,
        header_action(base() + seq![9, 4, 1]) is SiteId,
        header_action(base() + seq![9, 4, 3]) is SiteDescription,
        header_action(base() + seq![9, 5, 5]) is StudyConfigRow,
        header_action(base() + seq![9, 6, 14]) is FieldRow,
{
    let b = base();
    let p1 = b + seq![9, 9];
    let p2 = b + seq![9, 4, 1];
    let p3 = b + seq![9, 4, 3];
    let p4 = b + seq![9, 5, 5];
    let p5 = b + seq![9, 6, 14];
    assert(p1.subrange(0, 9) =~= b);
    assert(p2.subrange(0, 9) =~= b);
    assert(p3.subrange(0, 9) =~= b);
    assert(p4.subrange(0, 9) =~= b);
    assert(p5.subrange(0, 9) =~= b);
    assert(b + dcm_path_of_rest(p1).drop_first() =~= p1);
    assert(b + dcm_path_of_rest(p2).drop_first() =~= p2);
    assert(b + dcm_path_of_rest(p3).drop_first() =~= p3);
    assert(b + dcm_path_of_rest(p4).drop_first() =~= p4);
    assert(b + dcm_path_of_rest(p5).drop_first() =~= p5);
    assert(p2 != p1);
    assert(p3 != p1 && p3 != p2) by {
        assert(p3[11] != p2[11]);
    }
    assert(p4 != p1 && p4 != p2 && p4 != p3) by {
        assert(p4[10] != p2[10]);
    }
    assert(p5 != p1 && p5 != p2 && p5 != p3) by {
        assert(p5[10] != p2[10]);
    }
}

spec fn dcm_path_of_rest(p: Seq<int>) -> Seq<int> {
    crate::oid::registry::dcm_path_of(p.subrange(9, p.len() as int))
}

proof fn lemma_first_row_places(c: Seq<PvrStudyConfigEntry>, k: int)
    requires
        forall|j: int| 0 <= j < c.len() ==> (#[trigger] c[j]).pvr_study_index.content == j + 1,
        k >= 0,
    ensures
        first_row(c, k) == if k < c.len() {
            k
        } else {
            -1
        },
    decreases c.len(),
{
    if c.len() > 0 {
        lemma_first_row_places(c.drop_last(), k);
    }
}

proof fn lemma_first_same_places(rows: Seq<Seq<Tree>>, k: int)
    requires
        forall|j: int| 0 <= j < rows.len() ==> (#[trigger] rows[j])[1] == Tree::Integer((j + 1) as i64),
        rows.len() <= k,
        k < 0x7fff_ffff_ffff_ffff,
    ensures
        first_same(rows, Tree::Integer((k + 1) as i64)) == -1,
    decreases rows.len(),
{
    if rows.len() > 0 {
        lemma_first_same_places(rows.drop_last(), k);
    }
}

/// What reading the written header gives: everything but the configuration
/// and field rows, which come later.
pub open spec fn head_view(h: DCMHeader) -> HeaderView {
    HeaderView { config: Seq::empty(), content: Seq::empty(), ..hview(h) }
}

proof fn lemma_head_fold(h: DCMHeader)
    requires
        canonical_header(h),
    ensures
        pairs_fold(empty_view(), head_entries(h)) == Ok::<HeaderView, AsnError>(head_view(h)),
        head_entries(h).len() % 2 == 0,
{
    lemma_actions();
    let rel = if h.relative.0 is Some && h.relative.0->Some_0.content@.len() > 0 {
        seq![Tree::OID(base_arcs() + seq![9i64, 9]), Tree::OID(h.relative.0->Some_0.content@)]
    } else {
        Seq::empty()
    };
    let site = if h.site_id.id@.len() > 0 {
        seq![short_path(h, seq![9i64, 4, 1]), Tree::OctetString(h.site_id.id@)]
    } else {
        Seq::empty()
    };
    let desc = if h.site_description.description@.len() > 0 {
        seq![short_path(h, seq![9i64, 4, 3]), Tree::OctetString(h.site_description.description@)]
    } else {
        Seq::empty()
    };
    assert(head_entries(h) == rel + site + desc);
    let v1 = HeaderView { relative: prefix_of(h.relative), ..empty_view() };
    // the prefix entry
    assert(ints(seq![9i64, 9]) =~= seq![9, 9]);
    assert(ints(base_arcs() + seq![9i64, 9]) =~= base() + seq![9, 9]);
    if rel.len() > 0 {
        assert(expand(None, base_arcs() + seq![9i64, 9]) == base_arcs() + seq![9i64, 9]);
        lemma_pair_fold(empty_view(), base_arcs() + seq![9i64, 9], rel[1]);
        assert(pairs_fold(empty_view(), rel) == Ok::<HeaderView, AsnError>(v1));
    } else {
        assert(pairs_fold(empty_view(), rel) == Ok::<HeaderView, AsnError>(v1));
    }
    // the site identifier
    let v2 = HeaderView { site_id: h.site_id.id@, ..v1 };
    assert(ints(seq![9i64, 4, 1]) =~= seq![9, 4, 1]);
    if site.len() > 0 {
        lemma_short_path(prefix_of(h.relative), seq![9i64, 4, 1]);
        lemma_pair_fold(v1, compress(prefix_of(h.relative), base_arcs() + seq![9i64, 4, 1]), site[1]);
        assert(pairs_fold(v1, site) == Ok::<HeaderView, AsnError>(v2));
    } else {
        assert(h.site_id.id@ =~= Seq::<u8>::empty());
        assert(pairs_fold(v1, site) == Ok::<HeaderView, AsnError>(v2));
    }
    // the site description
    let v3 = HeaderView { site_description: h.site_description.description@, ..v2 };
    assert(ints(seq![9i64, 4, 3]) =~= seq![9, 4, 3]);
    if desc.len() > 0 {
        lemma_short_path(prefix_of(h.relative), seq![9i64, 4, 3]);
        lemma_pair_fold(v2, compress(prefix_of(h.relative), base_arcs() + seq![9i64, 4, 3]), desc[1]);
        assert(pairs_fold(v2, desc) == Ok::<HeaderView, AsnError>(v3));
    } else {
        assert(h.site_description.description@ =~= Seq::<u8>::empty());
        assert(pairs_fold(v2, desc) == Ok::<HeaderView, AsnError>(v3));
    }
    lemma_fold_concat(empty_view(), rel, site);
    lemma_fold_concat(empty_view(), rel + site, desc);
    assert(v3 == head_view(h));
}

proof fn lemma_config_fold(h: DCMHeader, k: int)
    requires
        canonical_header(h),
        0 <= k <= h.config.study_config_table@.len(),
    ensures
        config_entries(h, h.config.study_config_table@.subrange(0, k)).len() == 2 * k,
        pairs_fold(head_view(h), config_entries(h, h.config.study_config_table@.subrange(0, k)))
            == Ok::<HeaderView, AsnError>(
            HeaderView { config: hview(h).config.subrange(0, k), ..head_view(h) },
        ),
    decreases k,
{
    let cs = h.config.study_config_table@;
    if k == 0 {
        assert(cs.subrange(0, 0) =~= Seq::<StudyConfig>::empty());
        assert(hview(h).config.subrange(0, 0) =~= Seq::<Seq<Tree>>::empty());
    } else {
        lemma_config_fold(h, k - 1);
        let part = cs.subrange(0, k);
        assert(part.drop_last() =~= cs.subrange(0, k - 1));
        assert(part.last() == cs[k - 1]);
        let c = cs[k - 1];
        assert(c is StudyConfigTable);
        let row = config_row(c);
        let pair = seq![short_path(h, seq![9i64, 5, 5]), Tree::Sequence(row)];
        assert(config_entries(h, part) == config_entries(h, cs.subrange(0, k - 1)) + pair);
        let v = HeaderView { config: hview(h).config.subrange(0, k - 1), ..head_view(h) };
        lemma_fold_concat(head_view(h), config_entries(h, cs.subrange(0, k - 1)), pair);
        lemma_actions();
        lemma_short_path(prefix_of(h.relative), seq![9i64, 5, 5]);
        assert(ints(seq![9i64, 5, 5]) =~= seq![9, 5, 5]);
        lemma_pair_fold(v, compress(prefix_of(h.relative), base_arcs() + seq![9i64, 5, 5]), pair[1]);
        assert(hview(h).config.subrange(0, k) =~= hview(h).config.subrange(0, k - 1).push(row));
    }
}

proof fn lemma_rows_fold(h: DCMHeader, k: nat)
    requires
        canonical_header(h),
        k <= h.content@.len(),
        h.content@.len() < 0x7fff_ffff_ffff_ffff,
    ensures
        row_entries(h, k).len() == 2 * k,
        forall|v: HeaderView|
            v.relative == prefix_of(h.relative) && v.content.len() == 0 ==> #[trigger] pairs_fold(v, row_entries(h, k))
                == Ok::<HeaderView, AsnError>(
                HeaderView { content: hview(h).content.subrange(0, k as int), ..v },
            ),
    decreases k,
{
    let c = h.content@;
    let rows = hview(h).content;
    if k == 0 {
        assert(rows.subrange(0, 0) =~= Seq::<Seq<Tree>>::empty());
        assert forall|v: HeaderView|
            v.relative == prefix_of(h.relative) && v.content.len() == 0 implies #[trigger] pairs_fold(v, row_entries(h, k))
            == Ok::<HeaderView, AsnError>(
            HeaderView { content: hview(h).content.subrange(0, k as int), ..v },
        ) by {
            assert(v.content =~= rows.subrange(0, 0));
        }
    } else {
        lemma_rows_fold(h, (k - 1) as nat);
        lemma_first_row_places(c, k - 1);
        let row = c[k - 1].row_view();
        let pair = seq![short_path(h, seq![9i64, 6, 14]), Tree::Sequence(row)];
        assert(row_entries(h, k) == row_entries(h, (k - 1) as nat) + pair);
        lemma_actions();
        lemma_short_path(prefix_of(h.relative), seq![9i64, 6, 14]);
        assert(ints(seq![9i64, 6, 14]) =~= seq![9, 6, 14]);
        let before = rows.subrange(0, k - 1);
        assert forall|j: int| 0 <= j < before.len() implies (#[trigger] before[j])[1] == Tree::Integer(
            (j + 1) as i64,
        ) by {
            assert(before[j] == c[j].row_view());
        }
        lemma_first_same_places(before, k - 1);
        assert(row[1] == Tree::Integer(k as i64));
        assert forall|v: HeaderView|
            v.relative == prefix_of(h.relative) && v.content.len() == 0 implies #[trigger] pairs_fold(v, row_entries(h, k))
            == Ok::<HeaderView, AsnError>(
            HeaderView { content: hview(h).content.subrange(0, k as int), ..v },
        ) by {
            lemma_fold_concat(v, row_entries(h, (k - 1) as nat), pair);
            let w = HeaderView { content: before, ..v };
            lemma_pair_fold(w, compress(prefix_of(h.relative), base_arcs() + seq![9i64, 6, 14]), pair[1]);
            assert(insert_row(before, row) =~= rows.subrange(0, k as int));
        }
    }
}

/// Writing a header out and reading the entries back gives the same header.
pub proof fn law_header_round_trip(h: DCMHeader)
    requires
        canonical_header(h),
        h.content@.len() < 0x7fff_ffff_ffff_ffff,
    ensures
        pairs_fold(empty_view(), header_entries(h)) == Ok::<HeaderView, AsnError>(hview(h)),
{
    let cs = h.config.study_config_table@;
    lemma_head_fold(h);
    lemma_config_fold(h, cs.len() as int);
    assert(cs.subrange(0, cs.len() as int) =~= cs);
    assert(hview(h).config.subrange(0, cs.len() as int) =~= hview(h).config);
    let head = head_entries(h);
    let conf = config_entries(h, cs);
    lemma_rows_fold(h, h.content@.len());
    lemma_fold_concat(empty_view(), head, conf);
    lemma_fold_concat(empty_view(), head + conf, row_entries(h, h.content@.len()));
    let v = HeaderView { config: hview(h).config, ..head_view(h) };
    assert(hview(h).content.subrange(0, h.content@.len() as int) =~= hview(h).content);
    assert(HeaderView { content: hview(h).content, ..v } == hview(h));
}

} // verus!
