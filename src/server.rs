//! Datasets per genome release, and the query types of the web layer.
use crate::chrom::ChromMap;
use crate::clinvar::{range_fetch, ChromRange, ClinvarSv, Record};
use crate::error::Error;
use crate::schema::Pathogenicity;
use vstd::prelude::*;

verus! {

/// Reference-genome coordinate system.
#[derive(Debug, Clone, Copy, PartialEq, Eq, Structural, Hash)]
pub enum GenomeRelease {
    Grch37,
    Grch38,
}

/// The release that `name` identifies, if any.
pub open spec fn release_of(name: Seq<char>) -> Option<GenomeRelease> {
    if name == "grch37"@ {
        Some(GenomeRelease::Grch37)
    } else if name == "grch38"@ {
        Some(GenomeRelease::Grch38)
    } else {
        None
    }
}

impl GenomeRelease {
    /// Parses a release identifier; unknown identifiers are a lookup error.
    pub fn from_name(name: &String) -> (r: Result<GenomeRelease, Error>)
        ensures
            match release_of(name@) {
                Some(g) => r == Ok::<GenomeRelease, Error>(g),
                None => r == Err::<GenomeRelease, Error>(Error::UnknownRelease),
            },
    {
        let g37: String = "grch37".to_owned();
        let g38: String = "grch38".to_owned();
        if *name == g37 {
            Ok(GenomeRelease::Grch37)
        } else if *name == g38 {
            Ok(GenomeRelease::Grch38)
        } else {
            Err(Error::UnknownRelease)
        }
    }
}

/// The datasets of one release.
pub struct Databases {
    pub clinvar_sv: ClinvarSv,
}

impl Databases {
    pub open spec fn wf(&self) -> bool {
        self.clinvar_sv.wf()
    }

    /// The datasets of a release that is declared but has no backing data.
    pub fn empty() -> (r: Databases)
        ensures
            r.wf(),
            r.clinvar_sv.records@.len() == 0,
    {
        Databases { clinvar_sv: ClinvarSv::new() }
    }
}

/// Everything the web layer serves from: the chromosome index and the
/// datasets of each release.
pub struct WebServerData {
    pub chrom_map: ChromMap,
    pub grch37: Databases,
    pub grch38: Databases,
}

/// Query parameters of the ClinVar SV route.
#[derive(Debug, Clone, PartialEq, Eq)]
pub struct ClinVarSvQuery {
    /// Chromosome name.
    pub chromosome: String,
    /// 0-based begin position.
    pub begin: u32,
    /// 0-based end position.
    pub end: u32,
    /// Minimal pathogenicity.
    pub min_pathogenicity: Option<Pathogenicity>,
}

/// Command line arguments of the server.
#[derive(Debug, Clone, PartialEq, Eq)]
pub struct Args {
    /// Path to database to use for querying.
    pub path_db: String,
    /// Path to configuration file, defaults to `${path_db}/conf.toml`.
    pub path_conf: Option<String>,
    /// IP to listen on.
    pub listen_host: String,
    /// Port to listen on.
    pub listen_port: u16,
}

impl WebServerData {
    pub open spec fn wf(&self) -> bool {
        self.grch37.wf() && self.grch38.wf()
    }

    pub open spec fn spec_datasets(&self, release: GenomeRelease) -> Databases {
        match release {
            GenomeRelease::Grch37 => self.grch37,
            GenomeRelease::Grch38 => self.grch38,
        }
    }

    /// The datasets of `release`.
    pub fn datasets(&self, release: GenomeRelease) -> (r: &Databases)
        ensures
            *r == self.spec_datasets(release),
    {
        match release {
            GenomeRelease::Grch37 => &self.grch37,
            GenomeRelease::Grch38 => &self.grch38,
        }
    }

    /// Known ClinVar SVs of the named release that overlap the query's range,
    /// filtered by its minimal pathogenicity. Unknown releases and chromosome
    /// names are lookup errors; a release declared empty answers with no records.
    pub fn fetch_clinvar_sv(&self, release: &String, query: &ClinVarSvQuery) -> (r: Result<
        Vec<Record>,
        Error,
    >)
        requires
            self.wf(),
        ensures
            match release_of(release@) {
                None => r == Err::<Vec<Record>, Error>(Error::UnknownRelease),
                Some(g) => range_fetch(
                    self.spec_datasets(g).clinvar_sv,
                    self.chrom_map@,
                    query.chromosome@,
                    query.begin,
                    query.end,
                    query.min_pathogenicity,
                    r,
                ),
            },
    {
        let g = match GenomeRelease::from_name(release) {
            Ok(g) => g,
            Err(e) => return Err(e),
        };
        let chrom_range = ChromRange {
            chromosome: query.chromosome.clone(),
            begin: query.begin,
            end: query.end,
        };
        self.datasets(g).clinvar_sv.fetch_records(&chrom_range, &self.chrom_map, query.min_pathogenicity)
    }
}

} // verus!
