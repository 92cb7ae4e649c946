//! What an engine decides around each gradient call: whether a driver is
//! bound, whether the coordinates come in triples, and whether the gradient
//! a driver hands back has the shape of the coordinates.

use vstd::prelude::*;

verus! {

/// Why an engine call cannot go on.
#[derive(Debug, PartialEq)]
pub enum EngineError {
    /// No driver is bound to the engine.
    MissingDriver,
    /// The flat coordinate vector is not a whole number of (x, y, z) triples.
    CoordinateLength { len: usize },
    /// The driver returned a gradient of another length than the coordinates.
    GradientLength { expected: usize, found: usize },
}

/// The engine's own state: at most one driver, rebound at will.
pub struct EngineMixin<D> {
    driver: Option<D>,
}

impl<D> EngineMixin<D> {
    /// The driver bound to the engine, if any.
    pub closed spec fn bound(&self) -> Option<D> {
        self.driver
    }

    /// An engine with no driver bound yet.
    pub fn new() -> (r: Self)
        ensures
            r.bound() is None,
    {
        EngineMixin { driver: None }
    }

    /// Binds `driver`, replacing any driver bound before.
    pub fn set_driver(&mut self, driver: D)
        ensures
            final(self).bound() == Some(driver),
    {
        self.driver = Some(driver);
    }

    /// The bound driver.
    pub fn driver(&self) -> (r: Result<&D, EngineError>)
        ensures
            match self.bound() {
                Some(d) => r matches Ok(x) && *x == d,
                None => r matches Err(EngineError::MissingDriver),
            },
    {
        match &self.driver {
            Some(d) => Ok(d),
            None => Err(EngineError::MissingDriver),
        }
    }

    /// The driver to hand `n_coords` flat coordinates to: fails without a
    /// driver, then on a count that is not a multiple of three.
    pub fn calc_driver(&self, n_coords: usize) -> (r: Result<&D, EngineError>)
        ensures
            match self.bound() {
                None => r matches Err(EngineError::MissingDriver),
                Some(d) => if n_coords % 3 == 0 {
                    r matches Ok(x) && *x == d
                } else {
                    r == Err::<&D, EngineError>(EngineError::CoordinateLength { len: n_coords })
                },
            },
    {
        let d = match self.driver() {
            Ok(d) => d,
            Err(e) => return Err(e),
        };
        if n_coords % 3 != 0 {
            return Err(EngineError::CoordinateLength { len: n_coords });
        }
        Ok(d)
    }
}

/// Accepts a gradient of `n_grad` entries for `n_coords` flat coordinates
/// exactly when the two lengths agree.
pub fn check_gradient(n_coords: usize, n_grad: usize) -> (r: Result<(), EngineError>)
    ensures
        n_grad == n_coords ==> r is Ok,
        n_grad != n_coords ==> r == Err::<(), EngineError>(
            EngineError::GradientLength { expected: n_coords, found: n_grad },
        ),
{
    if n_grad == n_coords {
        Ok(())
    } else {
        Err(EngineError::GradientLength { expected: n_coords, found: n_grad })
    }
}

/// The number of atoms in each conformer of a molecule, from the lengths of
/// its flat coordinate vectors; fails on the first that is not a whole number
/// of triples.
pub fn atom_counts(conformer_lens: &Vec<usize>) -> (r: Result<Vec<usize>, EngineError>)
    ensures
        match r {
            Ok(counts) => counts.len() == conformer_lens.len() && forall|i: int| #![trigger counts[i]]
                0 <= i < conformer_lens.len() ==> 3 * counts[i] == conformer_lens[i],
            Err(e) => exists|i: int|
                0 <= i < conformer_lens.len() && #[trigger] conformer_lens[i] % 3 != 0
                    && e == EngineError::CoordinateLength { len: conformer_lens[i] } && forall|k: int|
                    0 <= k < i ==> #[trigger] conformer_lens[k] % 3 == 0,
        },
{
    let mut counts: Vec<usize> = Vec::new();
    let mut i: usize = 0;
    while i < conformer_lens.len()
        invariant
            i <= conformer_lens.len(),
            counts.len() == i,
            forall|k: int| #![trigger counts[k]]
                0 <= k < i ==> 3 * counts[k] == conformer_lens[k],
        decreases conformer_lens.len() - i,
    {
        let n = conformer_lens[i];
        if n % 3 != 0 {
            assert forall|k: int| 0 <= k < i implies #[trigger] conformer_lens[k] % 3 == 0 by {
                let c = counts[k] as int;
                assert((3 * c) % 3 == 0) by (nonlinear_arith);
            }
            return Err(EngineError::CoordinateLength { len: n });
        }
        assert(3 * (n / 3) == n) by (nonlinear_arith)
            requires
                n % 3 == 0,
        ;
        counts.push(n / 3);
        i += 1;
    }
    Ok(counts)
}

} // verus!
