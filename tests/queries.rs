use varfish_sv_index::chrom::ChromMap;
use varfish_sv_index::clinvar::{
    load_clinvar_sv, reciprocal_overlap_reaches, ChromRange, ClinvarSv, Ratio, RawRecord, Record,
    StructuralVariant,
};
use varfish_sv_index::error::{Error, MyError};
use varfish_sv_index::schema::{Pathogenicity, SvType, VariationType};
use varfish_sv_index::server::{ClinVarSvQuery, Databases, GenomeRelease, WebServerData};

fn chroms() -> ChromMap {
    ChromMap::new(vec!["1".to_string(), "2".to_string(), "X".to_string()])
}

fn raw(chrom_no: u32, begin: u32, end: u32, variation_type: u8, pathogenicity: u8, vcv: u32) -> RawRecord {
    RawRecord { chrom_no, begin, end, variation_type, pathogenicity, vcv }
}

fn range(chrom: &str, begin: u32, end: u32) -> ChromRange {
    ChromRange { chromosome: chrom.to_string(), begin, end }
}

fn sorted_vcvs(records: &[Record]) -> Vec<u32> {
    let mut v: Vec<u32> = records.iter().map(|r| r.vcv).collect();
    v.sort();
    v
}

fn deletion(pos: u32, end: u32) -> StructuralVariant {
    StructuralVariant { chrom: "1".to_string(), pos, end, sv_type: SvType::Del }
}

#[test]
fn scenario_single_pathogenic_record() {
    let db = load_clinvar_sv(&vec![raw(0, 100, 200, 3, 4, 7)], 3).unwrap();
    let hit = db.fetch_records(&range("1", 150, 160), &chroms(), None).unwrap();
    assert_eq!(hit.len(), 1);
    assert_eq!(hit[0].begin, 100);
    assert_eq!(hit[0].end, 200);
    assert_eq!(hit[0].pathogenicity, Pathogenicity::Pathogenic);
    assert_eq!(hit[0].variation_type, VariationType::Del);
    let miss = db.fetch_records(&range("1", 300, 400), &chroms(), None).unwrap();
    assert!(miss.is_empty());
}

#[test]
fn scenario_two_intersecting_records() {
    let db = load_clinvar_sv(&vec![raw(0, 100, 200, 3, 4, 1), raw(0, 190, 205, 3, 4, 2)], 3).unwrap();
    let hit = db.fetch_records(&range("1", 195, 196), &chroms(), None).unwrap();
    assert_eq!(sorted_vcvs(&hit), vec![1, 2]);
}

#[test]
fn scenario_reciprocal_overlap_threshold() {
    let db = load_clinvar_sv(&vec![raw(0, 150, 170, 3, 4, 9)], 3).unwrap();
    let sv = deletion(101, 300);
    let half = db.overlapping_vcvs(&sv, &chroms(), None, Some(Ratio { num: 1, den: 2 })).unwrap();
    assert!(half.is_empty());
    let twentieth = db.overlapping_vcvs(&sv, &chroms(), None, Some(Ratio { num: 1, den: 20 })).unwrap();
    assert_eq!(twentieth, vec![9]);
    let unfiltered = db.overlapping_vcvs(&sv, &chroms(), None, None).unwrap();
    assert_eq!(unfiltered, vec![9]);
}

#[test]
fn half_open_boundaries_do_not_overlap() {
    let db = load_clinvar_sv(&vec![raw(0, 100, 200, 3, 4, 1)], 3).unwrap();
    assert!(db.fetch_records(&range("1", 200, 300), &chroms(), None).unwrap().is_empty());
    assert!(db.fetch_records(&range("1", 0, 100), &chroms(), None).unwrap().is_empty());
    assert_eq!(db.fetch_records(&range("1", 199, 300), &chroms(), None).unwrap().len(), 1);
    assert_eq!(db.fetch_records(&range("1", 0, 101), &chroms(), None).unwrap().len(), 1);
}

#[test]
fn empty_spans_meet_nothing() {
    let db = load_clinvar_sv(&vec![raw(0, 100, 200, 3, 4, 1), raw(0, 120, 120, 3, 4, 2)], 3).unwrap();
    assert!(db.fetch_records(&range("1", 150, 150), &chroms(), None).unwrap().is_empty());
    assert_eq!(sorted_vcvs(&db.fetch_records(&range("1", 100, 300), &chroms(), None).unwrap()), vec![1]);
    let sv = deletion(101, 300);
    assert_eq!(db.overlapping_vcvs(&sv, &chroms(), None, None).unwrap(), vec![1]);
    assert_eq!(
        db.overlapping_vcvs(&sv, &chroms(), Some(Pathogenicity::Benign), Some(Ratio { num: 0, den: 1 })).unwrap(),
        vec![1]
    );
    assert!(db.overlapping_vcvs(&deletion(151, 150), &chroms(), None, None).unwrap().is_empty());
}

#[test]
fn reversed_query_range_meets_nothing() {
    let db = load_clinvar_sv(&vec![raw(0, 100, 200, 3, 4, 1)], 3).unwrap();
    assert!(db.fetch_records(&range("1", 180, 120), &chroms(), None).unwrap().is_empty());
}

#[test]
fn overlap_matches_linear_scan() {
    let spans: Vec<(u32, u32)> = vec![(0, 10), (5, 15), (20, 30), (25, 26), (8, 40), (40, 50), (12, 12)];
    let table: Vec<RawRecord> =
        spans.iter().enumerate().map(|(i, &(b, e))| raw(0, b, e, 3, 2, i as u32)).collect();
    let db = load_clinvar_sv(&table, 3).unwrap();
    for qb in 0..55u32 {
        for qe in qb..56u32 {
            let got = db.fetch_records(&range("1", qb, qe), &chroms(), None).unwrap();
            let mut expected: Vec<u32> = spans
                .iter()
                .enumerate()
                .filter(|(_, &(b, e))| b.max(qb) < e.min(qe))
                .map(|(i, _)| i as u32)
                .collect();
            expected.sort();
            assert_eq!(sorted_vcvs(&got), expected, "query [{}, {})", qb, qe);
        }
    }
}

#[test]
fn records_stay_on_their_chromosome() {
    let db = load_clinvar_sv(&vec![raw(0, 100, 200, 3, 4, 1), raw(2, 100, 200, 3, 4, 2)], 3).unwrap();
    assert_eq!(sorted_vcvs(&db.fetch_records(&range("X", 0, 1000), &chroms(), None).unwrap()), vec![2]);
    assert!(db.fetch_records(&range("2", 0, 1000), &chroms(), None).unwrap().is_empty());
}

#[test]
fn pathogenicity_minimum_filters() {
    let db = load_clinvar_sv(
        &vec![raw(0, 100, 200, 3, 0, 1), raw(0, 100, 200, 3, 2, 2), raw(0, 100, 200, 3, 4, 3)],
        3,
    )
    .unwrap();
    let q = range("1", 150, 151);
    let uncertain = db.fetch_records(&q, &chroms(), Some(Pathogenicity::Uncertain)).unwrap();
    assert_eq!(sorted_vcvs(&uncertain), vec![2, 3]);
    assert!(uncertain.iter().all(|r| r.pathogenicity.rank() >= Pathogenicity::Uncertain.rank()));
    let unset = db.fetch_records(&q, &chroms(), None).unwrap();
    let benign = db.fetch_records(&q, &chroms(), Some(Pathogenicity::Benign)).unwrap();
    assert_eq!(sorted_vcvs(&unset), sorted_vcvs(&benign));
    assert_eq!(sorted_vcvs(&unset), vec![1, 2, 3]);
    let patho = db.fetch_records(&q, &chroms(), Some(Pathogenicity::Pathogenic)).unwrap();
    assert_eq!(sorted_vcvs(&patho), vec![3]);
}

#[test]
fn unknown_chromosome_is_lookup_error() {
    let db = load_clinvar_sv(&vec![raw(0, 100, 200, 3, 4, 1)], 3).unwrap();
    assert_eq!(db.fetch_records(&range("chr1", 0, 10), &chroms(), None).unwrap_err(), Error::UnknownChromosome);
    assert_eq!(
        db.overlapping_vcvs(&StructuralVariant { chrom: "Z".to_string(), pos: 1, end: 10, sv_type: SvType::Del },
            &chroms(), None, None).unwrap_err(),
        Error::UnknownChromosome
    );
    assert!(Error::UnknownChromosome.is_client_error());
    assert!(!Error::Decode.is_client_error());
}

#[test]
fn empty_dataset_answers_empty() {
    let db = ClinvarSv::new();
    assert!(db.fetch_records(&range("1", 0, 1000), &chroms(), None).unwrap().is_empty());
    assert!(db.fetch_records(&range("nope", 0, 1000), &chroms(), None).unwrap().is_empty());
    assert!(db.overlapping_vcvs(&deletion(1, 1000), &chroms(), None, None).unwrap().is_empty());
}

#[test]
fn insertions_and_breakends_overlap_nothing() {
    let db = load_clinvar_sv(&vec![raw(0, 100, 200, 7, 4, 1)], 3).unwrap();
    for t in [SvType::Ins, SvType::Bnd] {
        let sv = StructuralVariant { chrom: "1".to_string(), pos: 101, end: 200, sv_type: t };
        assert!(db.overlapping_vcvs(&sv, &chroms(), None, None).unwrap().is_empty());
        let unknown = StructuralVariant { chrom: "Z".to_string(), pos: 101, end: 200, sv_type: t };
        assert!(db.overlapping_vcvs(&unknown, &chroms(), None, None).unwrap().is_empty());
    }
    let dup = StructuralVariant { chrom: "1".to_string(), pos: 101, end: 200, sv_type: SvType::Dup };
    assert_eq!(db.overlapping_vcvs(&dup, &chroms(), None, None).unwrap(), vec![1]);
}

#[test]
fn overlap_minimum_is_monotone() {
    let db = load_clinvar_sv(
        &vec![raw(0, 100, 300, 3, 4, 1), raw(0, 150, 250, 3, 4, 2), raw(0, 290, 400, 3, 4, 3)],
        3,
    )
    .unwrap();
    let sv = deletion(101, 300);
    let mut previous: Option<Vec<u32>> = None;
    for num in 0..=10u32 {
        let mut got = db.overlapping_vcvs(&sv, &chroms(), None, Some(Ratio { num, den: 10 })).unwrap();
        got.sort();
        if let Some(prev) = &previous {
            assert!(got.iter().all(|v| prev.contains(v)));
        }
        previous = Some(got);
    }
    let mut all = db.overlapping_vcvs(&sv, &chroms(), None, Some(Ratio { num: 0, den: 1 })).unwrap();
    all.sort();
    assert_eq!(all, vec![1, 2, 3]);
    let mut unset = db.overlapping_vcvs(&sv, &chroms(), None, None).unwrap();
    unset.sort();
    assert_eq!(unset, all);
    let patho = db.overlapping_vcvs(&sv, &chroms(), Some(Pathogenicity::Pathogenic), None).unwrap();
    assert_eq!(patho.len(), 3);
    assert_eq!(db.overlapping_vcvs(&sv, &chroms(), None, Some(Ratio { num: 1, den: 1 })).unwrap(), vec![1]);
}

#[test]
fn reciprocal_overlap_exact_values() {
    // intersection 20, larger span 200: a tenth
    assert!(reciprocal_overlap_reaches(150, 170, 100, 300, Ratio { num: 1, den: 10 }));
    assert!(!reciprocal_overlap_reaches(150, 170, 100, 300, Ratio { num: 11, den: 100 }));
    assert!(reciprocal_overlap_reaches(0, 10, 0, 10, Ratio { num: 1, den: 1 }));
    assert!(reciprocal_overlap_reaches(0, 10, 5, 10, Ratio { num: 1, den: 2 }));
    assert!(!reciprocal_overlap_reaches(0, 10, 5, 10, Ratio { num: 51, den: 100 }));
    assert!(!reciprocal_overlap_reaches(0, 10, 10, 20, Ratio { num: 1, den: 100 }));
    assert!(reciprocal_overlap_reaches(0, u32::MAX, 0, u32::MAX, Ratio { num: u32::MAX, den: u32::MAX }));
}

#[test]
fn decode_errors() {
    assert_eq!(load_clinvar_sv(&vec![raw(3, 1, 2, 3, 4, 1)], 3).err(), Some(Error::Decode));
    assert_eq!(load_clinvar_sv(&vec![raw(0, 1, 2, 8, 4, 1)], 3).err(), Some(Error::Decode));
    assert_eq!(load_clinvar_sv(&vec![raw(0, 1, 2, 3, 5, 1)], 3).err(), Some(Error::Decode));
    assert_eq!(load_clinvar_sv(&vec![raw(0, 5, 2, 3, 4, 1)], 3).err(), Some(Error::Decode));
    assert!(load_clinvar_sv(&vec![raw(0, 1, 2, 3, 4, 1), raw(1, 7, 7, 0, 0, 2)], 3).is_ok());
    assert!(load_clinvar_sv(&vec![], 0).is_ok());
}

#[test]
fn codes_decode() {
    assert_eq!(Pathogenicity::from_code(0), Ok(Pathogenicity::Benign));
    assert_eq!(Pathogenicity::from_code(3), Ok(Pathogenicity::LikelyPathogenic));
    assert_eq!(Pathogenicity::from_code(9), Err(Error::Decode));
    assert_eq!(VariationType::from_code(4), Ok(VariationType::Bnd));
    assert_eq!(VariationType::from_code(200), Err(Error::Decode));
    assert!(Pathogenicity::Pathogenic.at_least(&Pathogenicity::LikelyBenign));
    assert!(!Pathogenicity::Benign.at_least(&Pathogenicity::Uncertain));
}

#[test]
fn chromosome_index_resolves() {
    let map = chroms();
    assert_eq!(map.resolve(&"X".to_string()), Ok(2));
    assert_eq!(map.resolve(&"1".to_string()), Ok(0));
    assert_eq!(map.resolve(&"MT".to_string()), Err(Error::UnknownChromosome));
    assert_eq!(map.name(1), "2");
    assert_eq!(map.len(), 3);
}

fn server() -> WebServerData {
    WebServerData {
        chrom_map: chroms(),
        grch37: Databases { clinvar_sv: load_clinvar_sv(&vec![raw(0, 100, 200, 3, 4, 5)], 3).unwrap() },
        grch38: Databases::empty(),
    }
}

fn query(chrom: &str, begin: u32, end: u32) -> ClinVarSvQuery {
    ClinVarSvQuery { chromosome: chrom.to_string(), begin, end, min_pathogenicity: None }
}

#[test]
fn releases_resolve_by_name() {
    assert_eq!(GenomeRelease::from_name(&"grch37".to_string()), Ok(GenomeRelease::Grch37));
    assert_eq!(GenomeRelease::from_name(&"grch38".to_string()), Ok(GenomeRelease::Grch38));
    assert_eq!(GenomeRelease::from_name(&"hg19".to_string()), Err(Error::UnknownRelease));
}

#[test]
fn server_fetch_by_release() {
    let data = server();
    let hit = data.fetch_clinvar_sv(&"grch37".to_string(), &query("1", 150, 151)).unwrap();
    assert_eq!(sorted_vcvs(&hit), vec![5]);
    assert!(data.fetch_clinvar_sv(&"grch38".to_string(), &query("1", 150, 151)).unwrap().is_empty());
    assert!(data.fetch_clinvar_sv(&"grch38".to_string(), &query("??", 150, 151)).unwrap().is_empty());
    assert_eq!(data.fetch_clinvar_sv(&"grch39".to_string(), &query("1", 150, 151)).unwrap_err(), Error::UnknownRelease);
    assert_eq!(data.fetch_clinvar_sv(&"grch37".to_string(), &query("??", 150, 151)).unwrap_err(), Error::UnknownChromosome);
    assert_eq!(data.datasets(GenomeRelease::Grch38).clinvar_sv.records.len(), 0);
}

#[test]
fn error_wrapper_keeps_error() {
    assert_eq!(MyError::new(Error::Io).err, Error::Io);
}
