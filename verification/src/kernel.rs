//! Floating-point work that functions ask for.
use vstd::prelude::*;

verus! {

/// What is to be computed from a list of numbers.
#[derive(Debug, Clone, Copy, PartialEq, Eq, Structural)]
pub enum Kernel {
    Sum,
    Mean,
    Product,
    /// The value of digits in a base, negative where the flag is set; `#NUM!` where it is not
    /// finite.
    Digits(u32, bool),
    /// The hour of a serial number's time.
    Hour,
    Minute,
    Second,
    Abs,
    Floor,
    Trunc,
    Sqrt,
    Round,
    RoundDown,
    RoundUp,
    Mod,
    Power,
    RoundTo,
    Even,
    Odd,
    Exp,
    Ln,
    Log10,
    Log,
    SqrtPi,
    Factorial,
    FactDouble,
    Combin,
    CombinA,
    Permut,
    PermutA,
    Quotient,
    CeilingMath,
    FloorMath,
    CeilingPrecise,
    FloorPrecise,
    LowerBound,
    Sin,
    Cos,
    Tan,
    Atan,
    Sinh,
    Cosh,
    Tanh,
    Asinh,
    Sec,
    Csc,
    Cot,
    Sech,
    Csch,
    Coth,
    Acot,
    Degrees,
    Radians,
    Asin,
    Acos,
    Atan2,
    Acosh,
    Atanh,
    Acoth,
    Erf,
    Erfc,
    BesselJ,
    BesselY,
    BesselI,
    BesselK,
    Pmt,
    Fv,
    Pv,
    Nper,
    Rate,
    Ipmt,
    Ppmt,
    CumIpmt,
    CumPrinc,
    Sln,
    Syd,
    Ddb,
    Db,
    Effect,
    Nominal,
    DollarDe,
    DollarFr,
    Pduration,
    Rri,
    NormalCdf,
    NormalInv,
    StandardInv,
    Standardize,
    Confidence,
    Gauss,
    Phi,
    SumSquares,
    /// The variance of a sample or of all, or its square root.
    Variance(bool, bool),
    DevSq,
    AveDev,
    /// The skewness of all or of a sample.
    Skew(bool),
    Kurt,
    GeoMean,
    HarMean,
    /// A quantile of numbers in order, by interpolation with the ends.
    Quantile,
    /// The same without the ends.
    QuantileExc,
    /// A quartile, with the ends or without them.
    Quartile(u8, bool),
    PercentRank(bool),
    TrimMean,
    /// The sum of products over so many lists of the same length.
    SumProduct(u64),
    Correl,
    RSq,
    Slope,
    Intercept,
    /// The covariance of all or of a sample.
    Covariance(bool),
    Steyx,
    Forecast,
    Npv,
    Irr,
    Mirr,
    Xnpv,
    Xirr,
    SeriesSum,
    Multinomial,
    NormalDist(bool),
    StandardDist(bool),
    ErfBetween,
    CeilingTo,
    FloorTo,
    /// A number as text with some decimals, with commas where the flag is set.
    FixedText(i64, bool),
    /// A number as an amount of dollars with some decimals.
    DollarText(i64),
    /// A temperature on another scale.
    Temperature(crate::engineering_fn::Scale, crate::engineering_fn::Scale),
    /// The first number times the second, divided by the third.
    Scaled,
    /// The length of the hypotenuse over two sides; `#NUM!` where it is not finite.
    Hypot,
}

/// What is to be computed from complex numbers, each a pair of its real and its imaginary part.
#[derive(Debug, Clone, Copy, PartialEq, Eq, Structural)]
pub enum ComplexKernel {
    /// The first number as it is.
    Itself,
    /// All numbers added up, from the first on.
    Sum,
    /// All numbers multiplied, from the first on.
    Product,
    /// The first number less the second.
    Difference,
    /// The first number divided by the second; the divisor is the square of the second's absolute
    /// value.
    Quotient,
    /// The first number to the power of the second's real part.
    Power,
    Exp,
    Ln,
    Log10,
    Log2,
    Sqrt,
    Sin,
    Cos,
    /// The divisor is the square of the cosine's absolute value.
    Tan,
    Sinh,
    Cosh,
    /// One divided by the cosine; the divisor is the square of its absolute value.
    Sec,
    /// One divided by the sine; the divisor is the square of its absolute value.
    Csc,
    /// One divided by the tangent; the divisor is the tangent's where that is 0, and otherwise the
    /// square of the tangent's absolute value.
    Cot,
    /// One divided by the hyperbolic cosine; the divisor is the square of its absolute value.
    Sech,
    /// One divided by the hyperbolic sine; the divisor is the square of its absolute value.
    Csch,
}

/// What a kernel on complex numbers gives: the parts of a number, and what was divided by to get
/// them, which is 1 where nothing was.
#[derive(Debug, Clone, Copy)]
pub struct ComplexResult {
    pub re: crate::value::Num,
    pub im: crate::value::Num,
    pub divisor: crate::value::Num,
}

} // verus!
