//! The kernel-machine model file format.
//!
//! A model is a line-oriented text file: a header line, a kernel-type
//! code, the kernel parameter, three unused lines, the feature dimension,
//! one unused line, the support-vector count, the bias, and then one line
//! per support vector.  Lines may carry trailing `#`-prefixed comments.

use vstd::prelude::*;

use crate::decimal::{dec_e10, dec_fits, dec_num, dec_valid, parse_decimal, Decimal};
use crate::encodings::FeatureEncoding;
use crate::errors::NrpsError;
use crate::predictors::predictions::PredictionCategory;
use crate::svm::vectors::{sv_err_matches, sv_line_ok, sv_matches, SupportVector};
use crate::textparse::{
    all_digits, before_char, digits_value, parse_usize, spec_trim, strip_comment, trim,
};

verus! {

/// The kernel kinds the model format enumerates.  Only the linear and
/// radial-basis kinds are supported; the others fail loudly at load time.
#[derive(Debug, Clone, Copy, PartialEq, Eq, Structural)]
pub enum KernelType {
    Linear,
    Polynomial,
    RBF,
    Sigmoid,
    Custom,
}

/// The numeric payload of a line: everything before a `#` comment,
/// trimmed.
pub open spec fn line_token(l: Seq<char>) -> Seq<char> {
    spec_trim(before_char(l, '#'))
}

/// A line holding an unsigned integer.
pub open spec fn int_line_ok(l: Seq<char>) -> bool {
    all_digits(line_token(l)) && digits_value(line_token(l)) <= usize::MAX
}

/// The integer a line holds.
pub open spec fn int_line_val(l: Seq<char>) -> int {
    digits_value(line_token(l))
}

/// A line holding a decimal number the library can represent.
pub open spec fn dec_line_ok(l: Seq<char>) -> bool {
    dec_valid(line_token(l)) && dec_fits(line_token(l))
}

/// Parses a line holding an unsigned integer, with any trailing comment
/// stripped and surrounding whitespace ignored.
pub fn parse_int(line: &str) -> (r: Result<usize, NrpsError>)
    ensures
        r is Ok <==> int_line_ok(line@),
        r matches Ok(v) ==> v == int_line_val(line@),
        r matches Err(e) ==> (e matches NrpsError::IntParserError(m) && m@ == line_token(line@)),
{
    let token = trim(strip_comment(line));
    match parse_usize(token) {
        Ok(v) => Ok(v),
        Err(()) => Err(NrpsError::IntParserError(String::from_str(token))),
    }
}

/// Parses a line holding a decimal number, with any trailing comment
/// stripped and surrounding whitespace ignored.
pub fn parse_decimal_line(line: &str) -> (r: Result<Decimal, NrpsError>)
    ensures
        r is Ok <==> dec_line_ok(line@),
        r matches Ok(d) ==> d.denotes(dec_num(line_token(line@)), dec_e10(line_token(line@))),
        r matches Err(e) ==> (e matches NrpsError::FloatParserError(m) && m@ == line_token(
            line@,
        )),
{
    let token = trim(strip_comment(line));
    match parse_decimal(token) {
        Ok(d) => Ok(d),
        Err(()) => Err(NrpsError::FloatParserError(String::from_str(token))),
    }
}

/// One loaded classifier: its name and category, the support vectors, the
/// bias, the feature encoding its vectors assume, and the kernel with its
/// parameter.
#[derive(Debug)]
pub struct SVMlightModel {
    pub name: String,
    pub category: PredictionCategory,
    vectors: Vec<SupportVector>,
    bias: Decimal,
    encoding: FeatureEncoding,
    kernel_type: KernelType,
    gamma: Decimal,
}

impl SVMlightModel {
    /// The model's name.
    pub closed spec fn spec_name(self) -> String {
        self.name
    }

    /// The model's category.
    pub closed spec fn spec_category(self) -> PredictionCategory {
        self.category
    }

    /// The support vectors.
    pub closed spec fn spec_vectors(self) -> Seq<SupportVector> {
        self.vectors@
    }

    /// The bias term.
    pub closed spec fn spec_bias(self) -> Decimal {
        self.bias
    }

    /// The feature encoding the model's vectors assume.
    pub closed spec fn spec_encoding(self) -> FeatureEncoding {
        self.encoding
    }

    /// The kernel kind.
    pub closed spec fn spec_kernel_type(self) -> KernelType {
        self.kernel_type
    }

    /// The radial-basis width parameter.
    pub closed spec fn spec_gamma(self) -> Decimal {
        self.gamma
    }

    /// Assembles a model.  Only the linear and radial-basis kernel kinds
    /// can be assembled; the format admits no other.
    pub fn new(
        name: String,
        category: PredictionCategory,
        vectors: Vec<SupportVector>,
        bias: Decimal,
        encoding: FeatureEncoding,
        kernel_type: KernelType,
        gamma: Decimal,
    ) -> (r: Self)
        requires
            kernel_type == KernelType::Linear || kernel_type == KernelType::RBF,
        ensures
            r.spec_name() == name,
            r.spec_category() == category,
            r.spec_vectors() == vectors@,
            r.spec_bias() == bias,
            r.spec_encoding() == encoding,
            r.spec_kernel_type() == kernel_type,
            r.spec_gamma() == gamma,
    {
        SVMlightModel { name, category, vectors, bias, encoding, kernel_type, gamma }
    }

    /// The support vectors.
    pub fn vectors(&self) -> (r: &Vec<SupportVector>)
        ensures
            r@ == self.spec_vectors(),
    {
        &self.vectors
    }

    /// The bias term.
    pub fn bias(&self) -> (r: Decimal)
        ensures
            r == self.spec_bias(),
    {
        self.bias
    }

    /// The feature encoding the model's vectors assume.
    pub fn encoding(&self) -> (r: FeatureEncoding)
        ensures
            r == self.spec_encoding(),
    {
        self.encoding
    }

    /// The kernel kind.
    pub fn kernel_type(&self) -> (r: KernelType)
        ensures
            r == self.spec_kernel_type(),
    {
        self.kernel_type
    }

    /// The radial-basis width parameter.
    pub fn gamma(&self) -> (r: Decimal)
        ensures
            r == self.spec_gamma(),
    {
        self.gamma
    }
}

/// A well-formed model header: at least the eleven header lines, a
/// kernel code of 0 or 2, and well-formed parameter lines.
pub open spec fn header_ok(lines: Seq<Seq<char>>) -> bool {
    &&& lines.len() >= 11
    &&& int_line_ok(lines[1])
    &&& (int_line_val(lines[1]) == 0 || int_line_val(lines[1]) == 2)
    &&& dec_line_ok(lines[3])
    &&& int_line_ok(lines[7])
    &&& int_line_ok(lines[9])
    &&& dec_line_ok(lines[10])
}

/// A well-formed model file: at least the eleven header lines, a kernel
/// code of 0 (linear) or 2 (radial-basis), well-formed parameter lines,
/// exactly as many support-vector lines as declared, each well formed
/// against the declared dimension.
pub open spec fn model_lines_ok(lines: Seq<Seq<char>>) -> bool {
    &&& header_ok(lines)
    &&& forall|k: int|
        11 <= k < lines.len() ==> sv_line_ok(#[trigger] lines[k], int_line_val(lines[7]))
    &&& lines.len() - 11 == int_line_val(lines[9])
}

impl SVMlightModel {
    /// Loads one model from the lines of its file.  The kernel code picks
    /// the kernel kind; any code other than 0 or 2 is unsupported.  Every
    /// line after the header is a support-vector line, and there must be
    /// exactly as many as the file declares.
    pub fn from_lines(
        lines: &Vec<String>,
        name: String,
        category: PredictionCategory,
        encoding: FeatureEncoding,
    ) -> (r: Result<Self, NrpsError>)
        ensures
            r is Ok <==> model_lines_ok(lines.deep_view()),
            r matches Ok(m) ==> {
                let ls = lines.deep_view();
                &&& m.spec_name() == name
                &&& m.spec_category() == category
                &&& m.spec_encoding() == encoding
                &&& m.spec_kernel_type() == (if int_line_val(ls[1]) == 0 {
                    KernelType::Linear
                } else {
                    KernelType::RBF
                })
                &&& m.spec_gamma().denotes(
                    dec_num(line_token(ls[3])),
                    dec_e10(line_token(ls[3])),
                )
                &&& m.spec_bias().denotes(
                    dec_num(line_token(ls[10])),
                    dec_e10(line_token(ls[10])),
                )
                &&& m.spec_vectors().len() == ls.len() - 11
                &&& forall|k: int|
                    0 <= k < m.spec_vectors().len() ==> sv_matches(
                        #[trigger] m.spec_vectors()[k],
                        ls[k + 11],
                        int_line_val(ls[7]),
                    )
            },
            lines@.len() < 11 ==> (r matches Err(NrpsError::InvalidFeatureLine(m)) && m@
                == "Failed to read line"@),
            lines@.len() >= 11 && !int_line_ok(lines.deep_view()[1]) ==> (r matches Err(
                NrpsError::IntParserError(m),
            ) && m@ == line_token(lines.deep_view()[1])),
            lines@.len() >= 11 && int_line_ok(lines.deep_view()[1]) && int_line_val(
                lines.deep_view()[1],
            ) != 0 && int_line_val(lines.deep_view()[1]) != 2 ==> (r matches Err(
                NrpsError::UnsupportedKernel(c),
            ) && c == int_line_val(lines.deep_view()[1])),
            lines@.len() >= 11 && int_line_ok(lines.deep_view()[1]) && (int_line_val(
                lines.deep_view()[1],
            ) == 0 || int_line_val(lines.deep_view()[1]) == 2) ==> {
                let ls = lines.deep_view();
                &&& !dec_line_ok(ls[3]) ==> (r matches Err(NrpsError::FloatParserError(m)) && m@
                    == line_token(ls[3]))
                &&& dec_line_ok(ls[3]) && !int_line_ok(ls[7]) ==> (r matches Err(
                    NrpsError::IntParserError(m),
                ) && m@ == line_token(ls[7]))
                &&& dec_line_ok(ls[3]) && int_line_ok(ls[7]) && !int_line_ok(ls[9]) ==> (r matches Err(
                    NrpsError::IntParserError(m),
                ) && m@ == line_token(ls[9]))
                &&& dec_line_ok(ls[3]) && int_line_ok(ls[7]) && int_line_ok(ls[9]) && !dec_line_ok(
                    ls[10],
                ) ==> (r matches Err(NrpsError::FloatParserError(m)) && m@ == line_token(ls[10]))
            },
            header_ok(lines.deep_view()) && (r is Err) ==> {
                let ls = lines.deep_view();
                let dim = int_line_val(ls[7]);
                ||| exists|k: int|
                    {
                        &&& 11 <= k < ls.len()
                        &&& !sv_line_ok(#[trigger] ls[k], dim)
                        &&& forall|j: int| 11 <= j < k ==> sv_line_ok(#[trigger] ls[j], dim)
                        &&& (r matches Err(e) && sv_err_matches(e, ls[k]))
                    }
                ||| ((forall|k: int| 11 <= k < ls.len() ==> sv_line_ok(#[trigger] ls[k], dim))
                    && ls.len() - 11 != int_line_val(ls[9]) && (r matches Err(
                    NrpsError::InvalidFeatureLine(m),
                ) && m@ == "Failed to read line"@))
            },
    {
        let n = lines.len();
        if n < 11 {
            return Err(NrpsError::InvalidFeatureLine(String::from_str("Failed to read line")));
        }
        proof {
            assert(lines.deep_view()[1] == lines@[1]@);
            assert(lines.deep_view()[3] == lines@[3]@);
            assert(lines.deep_view()[7] == lines@[7]@);
            assert(lines.deep_view()[9] == lines@[9]@);
            assert(lines.deep_view()[10] == lines@[10]@);
        }
        let code = match parse_int(lines[1].as_str()) {
            Ok(v) => v,
            Err(e) => {
                return Err(e);
            },
        };
        let kernel_type = if code == 0 {
            KernelType::Linear
        } else if code == 2 {
            KernelType::RBF
        } else {
            return Err(NrpsError::UnsupportedKernel(code));
        };
        let gamma = match parse_decimal_line(lines[3].as_str()) {
            Ok(d) => d,
            Err(e) => {
                return Err(e);
            },
        };
        let dimensions = match parse_int(lines[7].as_str()) {
            Ok(v) => v,
            Err(e) => {
                return Err(e);
            },
        };
        let num_vecs = match parse_int(lines[9].as_str()) {
            Ok(v) => v,
            Err(e) => {
                return Err(e);
            },
        };
        let bias = match parse_decimal_line(lines[10].as_str()) {
            Ok(d) => d,
            Err(e) => {
                return Err(e);
            },
        };
        let mut vectors: Vec<SupportVector> = Vec::with_capacity(num_vecs);
        let mut i: usize = 11;
        while i < n
            invariant
                n == lines@.len(),
                11 <= i <= n,
                vectors@.len() == i - 11,
                int_line_ok(lines.deep_view()[1]),
                int_line_val(lines.deep_view()[1]) == 0 || int_line_val(lines.deep_view()[1])
                    == 2,
                dec_line_ok(lines.deep_view()[3]),
                int_line_ok(lines.deep_view()[7]),
                int_line_ok(lines.deep_view()[9]),
                dec_line_ok(lines.deep_view()[10]),
                dimensions as int == int_line_val(lines.deep_view()[7]),
                forall|k: int|
                    11 <= k < i ==> sv_line_ok(
                        #[trigger] lines.deep_view()[k],
                        dimensions as int,
                    ),
                forall|k: int|
                    0 <= k < vectors@.len() ==> sv_matches(
                        #[trigger] vectors@[k],
                        lines.deep_view()[k + 11],
                        dimensions as int,
                    ),
            decreases n - i,
        {
            proof {
                assert(lines.deep_view()[i as int] == lines@[i as int]@);
            }
            let svec = match SupportVector::from_line(lines[i].clone(), dimensions) {
                Ok(sv) => sv,
                Err(e) => {
                    return Err(e);
                },
            };
            vectors.push(svec);
            i = i + 1;
        }
        if vectors.len() != num_vecs {
            // the file declared a different number of support vectors
            return Err(NrpsError::InvalidFeatureLine(String::from_str("Failed to read line")));
        }
        Ok(SVMlightModel::new(name, category, vectors, bias, encoding, kernel_type, gamma))
    }
}

} // verus!
