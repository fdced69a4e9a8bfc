//! Validation of the integer render parameters.
//!
//! Nothing is computed for a grid without pixels, for a viewport whose zoom
//! is not positive, or for an iteration cap of zero. The zoom factor is a
//! floating-point number that the caller holds; the caller reports only
//! whether it is positive.

use vstd::prelude::*;

verus! {

/// Why a set of render parameters was rejected.
#[derive(Clone, Copy, Debug, PartialEq, Eq, Structural)]
pub enum ConfigError {
    /// The width is zero or negative.
    NonPositiveWidth,
    /// The height is zero or negative.
    NonPositiveHeight,
    /// The zoom factor is not a positive number.
    NonPositiveZoom,
    /// The iteration cap is zero.
    ZeroMaxIter,
    /// The grid or the histogram would not fit in memory.
    TooLarge,
}

impl ConfigError {
    /// A sentence that names the rejected parameter.
    pub fn message(&self) -> (text: String)
        ensures
            text@ == match *self {
                ConfigError::NonPositiveWidth => "the width must be positive"@,
                ConfigError::NonPositiveHeight => "the height must be positive"@,
                ConfigError::NonPositiveZoom => "the zoom factor must be positive"@,
                ConfigError::ZeroMaxIter => "the iteration cap must be positive"@,
                ConfigError::TooLarge => "the grid is too large for this machine"@,
            },
    {
        match self {
            ConfigError::NonPositiveWidth => "the width must be positive".to_owned(),
            ConfigError::NonPositiveHeight => "the height must be positive".to_owned(),
            ConfigError::NonPositiveZoom => "the zoom factor must be positive".to_owned(),
            ConfigError::ZeroMaxIter => "the iteration cap must be positive".to_owned(),
            ConfigError::TooLarge => "the grid is too large for this machine".to_owned(),
        }
    }
}

/// The first reason to reject the parameters, if there is one. They are
/// examined in the order width, height, zoom, iteration cap, size.
pub open spec fn rejection(
    width: int,
    height: int,
    zoom_positive: bool,
    max_iter: int,
) -> Option<ConfigError> {
    if width <= 0 {
        Some(ConfigError::NonPositiveWidth)
    } else if height <= 0 {
        Some(ConfigError::NonPositiveHeight)
    } else if !zoom_positive {
        Some(ConfigError::NonPositiveZoom)
    } else if max_iter <= 0 {
        Some(ConfigError::ZeroMaxIter)
    } else if width * height > usize::MAX || max_iter >= usize::MAX {
        Some(ConfigError::TooLarge)
    } else {
        None
    }
}

/// Render parameters that passed validation: the pixel grid and the cap.
#[derive(Clone, Copy, Debug)]
pub struct RenderConfig {
    width: usize,
    height: usize,
    max_iter: u64,
}

impl RenderConfig {
    #[verifier::type_invariant]
    spec fn inv(self) -> bool {
        rejection(self.width as int, self.height as int, true, self.max_iter as int) is None
    }

    /// The number of pixel columns.
    pub closed spec fn spec_width(&self) -> nat {
        self.width as nat
    }

    /// The number of pixel rows.
    pub closed spec fn spec_height(&self) -> nat {
        self.height as nat
    }

    /// The iteration cap.
    pub closed spec fn spec_max_iter(&self) -> nat {
        self.max_iter as nat
    }

    /// Accepts the parameters or names the first one that is wrong.
    pub fn validate(width: i64, height: i64, zoom_positive: bool, max_iter: u64) -> (made:
        Result<RenderConfig, ConfigError>)
        ensures
            match rejection(width as int, height as int, zoom_positive, max_iter as int) {
                Some(reason) => made == Err::<RenderConfig, ConfigError>(reason),
                None => made matches Ok(cfg) && cfg.spec_width() == width && cfg.spec_height()
                    == height && cfg.spec_max_iter() == max_iter,
            },
    {
        if width <= 0 {
            return Err(ConfigError::NonPositiveWidth);
        }
        if height <= 0 {
            return Err(ConfigError::NonPositiveHeight);
        }
        if !zoom_positive {
            return Err(ConfigError::NonPositiveZoom);
        }
        if max_iter == 0 {
            return Err(ConfigError::ZeroMaxIter);
        }
        if width as u64 > usize::MAX as u64 || height as u64 > usize::MAX as u64 {
            proof {
                assert(width * height > usize::MAX) by (nonlinear_arith)
                    requires
                        width >= 1,
                        height >= 1,
                        width > usize::MAX || height > usize::MAX,
                ;
            }
            return Err(ConfigError::TooLarge);
        }
        let w: usize = width as usize;
        let h: usize = height as usize;
        if w > usize::MAX / h || max_iter >= usize::MAX as u64 {
            proof {
                if w > usize::MAX / h {
                    lemma_quotient_exceeded(w as int, h as int, usize::MAX as int);
                }
            }
            return Err(ConfigError::TooLarge);
        }
        proof {
            lemma_quotient_respected(w as int, h as int, usize::MAX as int);
        }
        Ok(RenderConfig { width: w, height: h, max_iter })
    }

    /// The number of pixel columns.
    pub fn width(&self) -> (w: usize)
        ensures
            w == self.spec_width(),
            w > 0,
    {
        proof {
            use_type_invariant(self);
        }
        self.width
    }

    /// The number of pixel rows.
    pub fn height(&self) -> (h: usize)
        ensures
            h == self.spec_height(),
            h > 0,
    {
        proof {
            use_type_invariant(self);
        }
        self.height
    }

    /// The iteration cap.
    pub fn max_iter(&self) -> (cap: u64)
        ensures
            cap == self.spec_max_iter(),
            0 < cap < usize::MAX,
    {
        proof {
            use_type_invariant(self);
        }
        self.max_iter
    }

    /// The number of pixels in the grid.
    pub fn pixel_count(&self) -> (n: usize)
        ensures
            n == self.spec_width() * self.spec_height(),
    {
        proof {
            use_type_invariant(self);
        }
        self.width * self.height
    }
}

/// A factor above the quotient takes the product above the bound.
pub proof fn lemma_quotient_exceeded(a: int, b: int, bound: int)
    requires
        0 < b,
        0 <= bound,
        a > bound / b,
    ensures
        a * b > bound,
{
    vstd::arithmetic::div_mod::lemma_fundamental_div_mod(bound, b);
    vstd::arithmetic::div_mod::lemma_mod_bound(bound, b);
    let q = bound / b;
    assert(a * b >= (q + 1) * b) by (nonlinear_arith)
        requires
            a >= q + 1,
            b > 0,
    ;
    assert((q + 1) * b == b * q + b) by (nonlinear_arith);
}

/// A factor within the quotient keeps the product within the bound.
pub proof fn lemma_quotient_respected(a: int, b: int, bound: int)
    requires
        0 < b,
        0 <= bound,
        0 <= a <= bound / b,
    ensures
        a * b <= bound,
{
    vstd::arithmetic::div_mod::lemma_fundamental_div_mod(bound, b);
    vstd::arithmetic::div_mod::lemma_mod_bound(bound, b);
    let q = bound / b;
    assert(a * b <= q * b) by (nonlinear_arith)
        requires
            a <= q,
            b > 0,
    ;
    assert(q * b == b * q) by (nonlinear_arith);
}

} // verus!
