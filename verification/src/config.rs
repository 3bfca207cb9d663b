//! Run configuration: which model categories are enabled, where the model
//! bank and the reference database live, and how many results to report.
//!
//! Paths are held as plain strings; resolving them against the filesystem
//! belongs to the surrounding application.

use vstd::prelude::*;

use crate::predictors::predictions::PredictionCategory;

verus! {

/// The command-line options the program accepts, as plain values.
#[derive(Debug)]
pub struct Cli {
    /// Signature file to run predictions on.
    pub signatures: String,
    /// Number of results to return per category.
    pub count: Option<usize>,
    /// Runs the fungal models.
    pub fungal: bool,
    /// A custom configuration file.
    pub config: Option<String>,
    /// Overrides the configured reference-database file.
    pub stachelhaus_signatures: Option<String>,
    /// Overrides the configured model directory.
    pub model_dir: Option<String>,
    /// Disables the third-generation models.
    pub skip_v3: bool,
    /// Disables the second-generation models.
    pub skip_v2: bool,
    /// Disables the first-generation models.
    pub skip_v1: bool,
    /// Disables the reference matcher.
    pub skip_stachelhaus: bool,
    /// Disables the matcher's detail output.
    pub skip_new_stachelhaus_output: bool,
}

/// The optional settings a configuration file may carry.
#[derive(Debug)]
pub struct ParsedConfig {
    pub model_dir: Option<String>,
    pub stachelhaus_signatures: Option<String>,
    pub count: Option<usize>,
    pub skip_v3: Option<bool>,
    pub skip_v2: Option<bool>,
    pub skip_v1: Option<bool>,
    pub skip_stachelhaus: Option<bool>,
    pub skip_new_stachelhaus_output: Option<bool>,
}

/// The reference database's default place inside a model directory.
pub fn set_stach_from_model_dir(model_dir: &str) -> (r: String)
    ensures
        r@ == model_dir@ + "/signatures.tsv"@,
{
    let mut path = String::new();
    path.append(model_dir);
    path.append("/signatures.tsv");
    path
}

/// The resolved run configuration.
#[derive(Debug, PartialEq)]
pub struct Config {
    model_dir: String,
    stachelhaus_signatures: String,
    stach_sig_derived: bool,
    pub count: usize,
    pub fungal: bool,
    pub skip_v3: bool,
    pub skip_v2: bool,
    pub skip_v1: bool,
    pub skip_stachelhaus: bool,
    pub skip_new_stachelhaus_output: bool,
}

impl Config {
    /// The model directory.
    pub closed spec fn spec_model_dir(self) -> String {
        self.model_dir
    }

    /// The reference-database file.
    pub closed spec fn spec_stachelhaus_signatures(self) -> String {
        self.stachelhaus_signatures
    }

    /// Whether the reference-database file is still the one derived from
    /// the model directory.
    pub closed spec fn spec_stach_sig_derived(self) -> bool {
        self.stach_sig_derived
    }

    pub closed spec fn spec_count(self) -> usize {
        self.count
    }

    pub closed spec fn spec_fungal(self) -> bool {
        self.fungal
    }

    pub closed spec fn spec_skip_v3(self) -> bool {
        self.skip_v3
    }

    pub closed spec fn spec_skip_v2(self) -> bool {
        self.skip_v2
    }

    pub closed spec fn spec_skip_v1(self) -> bool {
        self.skip_v1
    }

    pub closed spec fn spec_skip_stachelhaus(self) -> bool {
        self.skip_stachelhaus
    }

    pub closed spec fn spec_skip_new_stachelhaus_output(self) -> bool {
        self.skip_new_stachelhaus_output
    }

    /// The defaults: the model bank under `data/models`, the reference
    /// database derived from it, one result per category, and every
    /// category enabled.
    pub fn new() -> (r: Self)
        ensures
            r.spec_model_dir()@ == "data/models"@,
            r.spec_stachelhaus_signatures()@ == "data/models"@ + "/signatures.tsv"@,
            r.spec_stach_sig_derived(),
            r.spec_count() == 1,
            !r.spec_fungal(),
            !r.spec_skip_v3(),
            !r.spec_skip_v2(),
            !r.spec_skip_v1(),
            !r.spec_skip_stachelhaus(),
            !r.spec_skip_new_stachelhaus_output(),
    {
        let model_dir = String::from_str("data/models");
        let stachelhaus_signatures = set_stach_from_model_dir(model_dir.as_str());
        Config {
            model_dir,
            stachelhaus_signatures,
            stach_sig_derived: true,
            count: 1,
            fungal: false,
            skip_v3: false,
            skip_v2: false,
            skip_v1: false,
            skip_stachelhaus: false,
            skip_new_stachelhaus_output: false,
        }
    }

    pub fn model_dir(&self) -> (r: &String)
        ensures
            r == self.spec_model_dir(),
    {
        &self.model_dir
    }

    /// Points the configuration at another model directory.  While the
    /// reference-database file is still the derived one, it follows the
    /// directory.
    pub fn set_model_dir(&mut self, model_dir: String)
        ensures
            final(self).spec_model_dir() == model_dir,
            final(self).spec_stach_sig_derived() == old(self).spec_stach_sig_derived(),
            old(self).spec_stach_sig_derived() ==> final(self).spec_stachelhaus_signatures()@
                == model_dir@ + "/signatures.tsv"@,
            !old(self).spec_stach_sig_derived() ==> final(self).spec_stachelhaus_signatures()
                == old(self).spec_stachelhaus_signatures(),
            final(self).spec_count() == old(self).spec_count(),
            final(self).spec_fungal() == old(self).spec_fungal(),
            final(self).spec_skip_v3() == old(self).spec_skip_v3(),
            final(self).spec_skip_v2() == old(self).spec_skip_v2(),
            final(self).spec_skip_v1() == old(self).spec_skip_v1(),
            final(self).spec_skip_stachelhaus() == old(self).spec_skip_stachelhaus(),
            final(self).spec_skip_new_stachelhaus_output() == old(
                self,
            ).spec_skip_new_stachelhaus_output(),
    {
        self.model_dir = model_dir;
        if self.stach_sig_derived {
            self.stachelhaus_signatures = set_stach_from_model_dir(self.model_dir.as_str());
        }
    }

    pub fn stachelhaus_signatures(&self) -> (r: &String)
        ensures
            r == self.spec_stachelhaus_signatures(),
    {
        &self.stachelhaus_signatures
    }

    /// Points the configuration at another reference-database file; it no
    /// longer follows the model directory.
    pub fn set_stachelhaus_signatures(&mut self, stachelhaus_signatures: String)
        ensures
            final(self).spec_stachelhaus_signatures() == stachelhaus_signatures,
            !final(self).spec_stach_sig_derived(),
            final(self).spec_model_dir() == old(self).spec_model_dir(),
            final(self).spec_count() == old(self).spec_count(),
            final(self).spec_fungal() == old(self).spec_fungal(),
            final(self).spec_skip_v3() == old(self).spec_skip_v3(),
            final(self).spec_skip_v2() == old(self).spec_skip_v2(),
            final(self).spec_skip_v1() == old(self).spec_skip_v1(),
            final(self).spec_skip_stachelhaus() == old(self).spec_skip_stachelhaus(),
            final(self).spec_skip_new_stachelhaus_output() == old(
                self,
            ).spec_skip_new_stachelhaus_output(),
    {
        self.stach_sig_derived = false;
        self.stachelhaus_signatures = stachelhaus_signatures;
    }

    /// The categories a configuration enables, in reporting order.
    pub open spec fn spec_categories(self) -> Seq<PredictionCategory> {
        (if !self.spec_skip_v3() {
            seq![
                PredictionCategory::ThreeClusterV3,
                PredictionCategory::LargeClusterV3,
                PredictionCategory::SmallClusterV3,
                PredictionCategory::SingleV3,
            ]
        } else {
            Seq::empty()
        }) + (if !self.spec_skip_stachelhaus() {
            seq![PredictionCategory::Stachelhaus]
        } else {
            Seq::empty()
        }) + (if !self.spec_skip_v2() {
            seq![
                PredictionCategory::ThreeClusterV2,
                PredictionCategory::LargeClusterV2,
                PredictionCategory::SmallClusterV2,
                PredictionCategory::SingleV2,
            ]
        } else {
            Seq::empty()
        }) + (if self.spec_fungal() && !self.spec_skip_v2() {
            seq![PredictionCategory::ThreeClusterFungalV2]
        } else {
            Seq::empty()
        }) + (if !self.spec_skip_v1() {
            seq![PredictionCategory::LargeClusterV1, PredictionCategory::SmallClusterV1]
        } else {
            Seq::empty()
        })
    }

    /// The categories this configuration enables, in reporting order.
    pub fn categories(&self) -> (r: Vec<PredictionCategory>)
        ensures
            r@ == self.spec_categories(),
    {
        let mut categories: Vec<PredictionCategory> = Vec::with_capacity(12);
        if !self.skip_v3 {
            categories.push(PredictionCategory::ThreeClusterV3);
            categories.push(PredictionCategory::LargeClusterV3);
            categories.push(PredictionCategory::SmallClusterV3);
            categories.push(PredictionCategory::SingleV3);
        }
        if !self.skip_stachelhaus {
            categories.push(PredictionCategory::Stachelhaus);
        }
        if !self.skip_v2 {
            categories.push(PredictionCategory::ThreeClusterV2);
            categories.push(PredictionCategory::LargeClusterV2);
            categories.push(PredictionCategory::SmallClusterV2);
            categories.push(PredictionCategory::SingleV2);
        }
        if self.fungal && !self.skip_v2 {
            categories.push(PredictionCategory::ThreeClusterFungalV2);
        }
        if !self.skip_v1 {
            categories.push(PredictionCategory::LargeClusterV1);
            categories.push(PredictionCategory::SmallClusterV1);
        }
        proof {
            assert(categories@ =~= self.spec_categories());
        }
        categories
    }

    /// Builds a configuration from a parsed configuration file: each
    /// present setting replaces the default.
    pub fn from_parsed(item: ParsedConfig) -> (r: Config)
        ensures
            r.spec_model_dir()@ == (match item.model_dir {
                Some(m) => m@,
                None => "data/models"@,
            }),
            r.spec_stachelhaus_signatures()@ == (match item.stachelhaus_signatures {
                Some(st) => st@,
                None => (match item.model_dir {
                    Some(m) => m@,
                    None => "data/models"@,
                }) + "/signatures.tsv"@,
            }),
            r.spec_stach_sig_derived() == (item.stachelhaus_signatures is None),
            r.spec_count() == (match item.count {
                Some(c) => c,
                None => 1usize,
            }),
            !r.spec_fungal(),
            r.spec_skip_v3() == (match item.skip_v3 {
                Some(b) => b,
                None => false,
            }),
            r.spec_skip_v2() == (match item.skip_v2 {
                Some(b) => b,
                None => false,
            }),
            r.spec_skip_v1() == (match item.skip_v1 {
                Some(b) => b,
                None => false,
            }),
            r.spec_skip_stachelhaus() == (match item.skip_stachelhaus {
                Some(b) => b,
                None => false,
            }),
            r.spec_skip_new_stachelhaus_output() == (match item.skip_new_stachelhaus_output {
                Some(b) => b,
                None => false,
            }),
    {
        let mut config = Config::new();
        if let Some(dir_str) = item.model_dir {
            config.set_model_dir(dir_str);
        }
        if let Some(file_name) = item.stachelhaus_signatures {
            config.set_stachelhaus_signatures(file_name);
        }
        if let Some(count) = item.count {
            config.count = count;
        }
        if let Some(skip_v3) = item.skip_v3 {
            config.skip_v3 = skip_v3;
        }
        if let Some(skip_v2) = item.skip_v2 {
            config.skip_v2 = skip_v2;
        }
        if let Some(skip_v1) = item.skip_v1 {
            config.skip_v1 = skip_v1;
        }
        if let Some(skip_stachelhaus) = item.skip_stachelhaus {
            config.skip_stachelhaus = skip_stachelhaus;
        }
        if let Some(skip_new_stach) = item.skip_new_stachelhaus_output {
            config.skip_new_stachelhaus_output = skip_new_stach;
        }
        config
    }

    /// Applies the command-line overrides on top of a configuration: the
    /// model directory (re-deriving the reference-database file), the
    /// reference-database file itself, the result count (raised to at
    /// least one), and the category switches.
    pub fn apply_cli_overrides(&mut self, args: &Cli)
        ensures
            final(self).spec_model_dir()@ == (match args.model_dir {
                Some(md) => md@,
                None => old(self).spec_model_dir()@,
            }),
            final(self).spec_stachelhaus_signatures()@ == (match args.stachelhaus_signatures {
                Some(st) => st@,
                None => (match args.model_dir {
                    Some(md) => md@ + "/signatures.tsv"@,
                    None => old(self).spec_stachelhaus_signatures()@,
                }),
            }),
            final(self).spec_count() == (match args.count {
                Some(c) => (if c < 1 {
                    1usize
                } else {
                    c
                }),
                None => old(self).spec_count(),
            }),
            final(self).spec_fungal() == old(self).spec_fungal(),
            final(self).spec_skip_v3() == args.skip_v3,
            final(self).spec_skip_v2() == args.skip_v2,
            final(self).spec_skip_v1() == args.skip_v1,
            final(self).spec_skip_stachelhaus() == args.skip_stachelhaus,
            final(self).spec_skip_new_stachelhaus_output() == args.skip_new_stachelhaus_output,
    {
        if let Some(md) = &args.model_dir {
            self.model_dir = md.clone();
            self.stachelhaus_signatures = set_stach_from_model_dir(self.model_dir.as_str());
        }
        if let Some(stach) = &args.stachelhaus_signatures {
            self.stachelhaus_signatures = stach.clone();
        }
        if let Some(count_val) = args.count {
            if count_val < 1 {
                self.count = 1;
            } else {
                self.count = count_val;
            }
        }
        self.skip_v3 = args.skip_v3;
        self.skip_v2 = args.skip_v2;
        self.skip_v1 = args.skip_v1;
        self.skip_stachelhaus = args.skip_stachelhaus;
        self.skip_new_stachelhaus_output = args.skip_new_stachelhaus_output;
    }
}

} // verus!
