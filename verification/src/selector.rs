use vstd::prelude::*;

verus! {

/// Which operator is applied to a matrix operand.
#[derive(Clone, Copy, Debug, PartialEq, Eq, Structural)]
pub enum Trans {
    /// The matrix as stored.
    N,
    /// Its transpose.
    T,
    /// Its conjugate transpose.
    C,
}

/// Which triangle of a square matrix is stored.
#[derive(Clone, Copy, Debug, PartialEq, Eq, Structural)]
pub enum Uplo {
    /// The upper triangle: row index at most column index.
    U,
    /// The lower triangle: row index at least column index.
    L,
}

/// Whether a triangular matrix has an implicit diagonal of ones.
#[derive(Clone, Copy, Debug, PartialEq, Eq, Structural)]
pub enum Diag {
    /// The diagonal is stored and read.
    N,
    /// The diagonal is one everywhere and never read.
    U,
}

/// On which side of the other operand the special matrix stands.
#[derive(Clone, Copy, Debug, PartialEq, Eq, Structural)]
pub enum Side {
    /// The special matrix multiplies from the left.
    L,
    /// The special matrix multiplies from the right.
    R,
}

impl Trans {
    /// The character code of the selector: `N`, `T` or `C`.
    pub open spec fn code_spec(self) -> u8 {
        match self {
            Trans::N => 78u8,
            Trans::T => 84u8,
            Trans::C => 67u8,
        }
    }

    pub fn code(self) -> (c: u8)
        ensures
            c == self.code_spec(),
    {
        match self {
            Trans::N => 78u8,
            Trans::T => 84u8,
            Trans::C => 67u8,
        }
    }

    /// The selector with the given character code, if there is one.
    pub fn from_code(c: u8) -> (r: Option<Trans>)
        ensures
            match r {
                Some(t) => t.code_spec() == c,
                None => c != 78 && c != 84 && c != 67,
            },
    {
        if c == 78u8 {
            Some(Trans::N)
        } else if c == 84u8 {
            Some(Trans::T)
        } else if c == 67u8 {
            Some(Trans::C)
        } else {
            None
        }
    }

    /// Whether rows and columns change places.
    pub open spec fn flips(self) -> bool {
        self != Trans::N
    }

    /// Whether each element is conjugated.
    pub open spec fn conjugates(self) -> bool {
        self == Trans::C
    }

    pub fn is_flipped(self) -> (b: bool)
        ensures
            b == self.flips(),
    {
        match self {
            Trans::N => false,
            _ => true,
        }
    }

    pub fn is_conjugated(self) -> (b: bool)
        ensures
            b == self.conjugates(),
    {
        match self {
            Trans::C => true,
            _ => false,
        }
    }
}

impl Uplo {
    /// The character code of the selector: `U` or `L`.
    pub open spec fn code_spec(self) -> u8 {
        match self {
            Uplo::U => 85u8,
            Uplo::L => 76u8,
        }
    }

    pub fn code(self) -> (c: u8)
        ensures
            c == self.code_spec(),
    {
        match self {
            Uplo::U => 85u8,
            Uplo::L => 76u8,
        }
    }

    /// The selector with the given character code, if there is one.
    pub fn from_code(c: u8) -> (r: Option<Uplo>)
        ensures
            match r {
                Some(u) => u.code_spec() == c,
                None => c != 85 && c != 76,
            },
    {
        if c == 85u8 {
            Some(Uplo::U)
        } else if c == 76u8 {
            Some(Uplo::L)
        } else {
            None
        }
    }

    /// Whether row `i`, column `j` lies in the triangle, diagonal included.
    pub open spec fn holds(self, i: int, j: int) -> bool {
        match self {
            Uplo::U => i <= j,
            Uplo::L => i >= j,
        }
    }

    pub fn contains(self, i: usize, j: usize) -> (b: bool)
        ensures
            b == self.holds(i as int, j as int),
    {
        match self {
            Uplo::U => i <= j,
            Uplo::L => i >= j,
        }
    }

    /// The other triangle.
    pub open spec fn other(self) -> Uplo {
        match self {
            Uplo::U => Uplo::L,
            Uplo::L => Uplo::U,
        }
    }

    pub fn opposite(self) -> (u: Uplo)
        ensures
            u == self.other(),
    {
        match self {
            Uplo::U => Uplo::L,
            Uplo::L => Uplo::U,
        }
    }
}

impl Diag {
    /// The character code of the selector: `N` or `U`.
    pub open spec fn code_spec(self) -> u8 {
        match self {
            Diag::N => 78u8,
            Diag::U => 85u8,
        }
    }

    pub fn code(self) -> (c: u8)
        ensures
            c == self.code_spec(),
    {
        match self {
            Diag::N => 78u8,
            Diag::U => 85u8,
        }
    }

    /// The selector with the given character code, if there is one.
    pub fn from_code(c: u8) -> (r: Option<Diag>)
        ensures
            match r {
                Some(d) => d.code_spec() == c,
                None => c != 78 && c != 85,
            },
    {
        if c == 78u8 {
            Some(Diag::N)
        } else if c == 85u8 {
            Some(Diag::U)
        } else {
            None
        }
    }

    /// Whether the diagonal is implicit.
    pub open spec fn unit(self) -> bool {
        self == Diag::U
    }

    pub fn is_unit(self) -> (b: bool)
        ensures
            b == self.unit(),
    {
        match self {
            Diag::U => true,
            Diag::N => false,
        }
    }
}

impl Side {
    /// The character code of the selector: `L` or `R`.
    pub open spec fn code_spec(self) -> u8 {
        match self {
            Side::L => 76u8,
            Side::R => 82u8,
        }
    }

    pub fn code(self) -> (c: u8)
        ensures
            c == self.code_spec(),
    {
        match self {
            Side::L => 76u8,
            Side::R => 82u8,
        }
    }

    /// The selector with the given character code, if there is one.
    pub fn from_code(c: u8) -> (r: Option<Side>)
        ensures
            match r {
                Some(s) => s.code_spec() == c,
                None => c != 76 && c != 82,
            },
    {
        if c == 76u8 {
            Some(Side::L)
        } else if c == 82u8 {
            Some(Side::R)
        } else {
            None
        }
    }

    /// Whether the special matrix stands on the left.
    pub open spec fn left(self) -> bool {
        self == Side::L
    }

    pub fn is_left(self) -> (b: bool)
        ensures
            b == self.left(),
    {
        match self {
            Side::L => true,
            Side::R => false,
        }
    }
}

} // verus!
