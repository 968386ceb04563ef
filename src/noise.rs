use vstd::prelude::*;

verus! {

/// A noise layer: how many octaves are summed and over how many cells one wavelength runs.
#[derive(Copy, Clone, PartialEq, Eq, Hash, Debug, Structural)]
pub struct NoiseLayer {
    pub octaves: u8,
    pub scale: u32,
}

impl NoiseLayer {
    /// The layer that shapes the terrain bands.
    pub fn terrain() -> (r: NoiseLayer)
        ensures
            r.octaves == 16 && r.scale == 512,
    {
        NoiseLayer { octaves: 16, scale: 512 }
    }

    pub fn cave() -> (r: NoiseLayer)
        ensures
            r.octaves == 16 && r.scale == 32,
    {
        NoiseLayer { octaves: 16, scale: 32 }
    }

    pub fn biome() -> (r: NoiseLayer)
        ensures
            r.octaves == 1 && r.scale == 256,
    {
        NoiseLayer { octaves: 1, scale: 256 }
    }
}

/// The seed of the coherent-noise sampler that shapes the terrain.
#[derive(Copy, Clone, PartialEq, Eq, Hash, Debug, Structural)]
pub struct NoiseGenerator {
    pub seed: u64,
}

impl NoiseGenerator {
    pub fn new(seed: u64) -> (r: NoiseGenerator)
        ensures
            r.seed == seed,
    {
        NoiseGenerator { seed }
    }
}

} // verus!
