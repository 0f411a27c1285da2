//! The mosaic engine: what it is configured with, how it reduces a library
//! image to a signature, and how it picks the library image for a mask.

use vstd::prelude::*;
use crate::color::{ColorModel, Rgb, RgbSquared};
use crate::mask::Mask;
use crate::options::{CalculationUnit, ColorSpace, DistanceAlgorithm};
use crate::raster::{resized_to_fill, scalable, within, RawImage};
use crate::score::{matched_distance, paired_distance, score, signature_of, summarise, weights_of};
use crate::select::{is_first_min, nearest};

verus! {

/// The formula that a colour space and a distance algorithm select together.
#[derive(Debug, Clone, Copy, Eq, PartialEq, Structural)]
pub enum Formula {
    /// The sum of the squared differences of the three channels.
    Squared,
    /// The squared difference of the hue in degrees, plus the squared
    /// differences of saturation and value, each scaled by 360. The hue
    /// difference is taken as it stands and does not wrap around the circle.
    HueWeighted,
    /// CIEDE2000, on the colour taken to CIE L*a*b*.
    Ciede2000,
}

/// The formula for a colour space and a distance algorithm.
pub open spec fn formula_for(space: ColorSpace, algorithm: DistanceAlgorithm) -> Formula {
    match algorithm {
        DistanceAlgorithm::CIEDE2000 => Formula::Ciede2000,
        DistanceAlgorithm::Euclidean => match space {
            ColorSpace::HSV => Formula::HueWeighted,
            _ => Formula::Squared,
        },
    }
}

/// An indexed library image: its signature, and the image itself.
pub struct LibItem<C> {
    pub signature: Vec<C>,
    pub image: RawImage,
}

/// The distances from the summary of `pixels`, a region `across` pixels
/// wide, to each item of the library in turn.
pub open spec fn scores<M: ColorModel>(
    model: &M,
    unit: CalculationUnit,
    k: nat,
    pixels: Seq<Rgb>,
    across: int,
    lib: Seq<LibItem<M::Color>>,
) -> Seq<u128> {
    Seq::new(
        lib.len(),
        |j: int|
            score(
                model,
                unit,
                signature_of(model, unit, k, pixels),
                weights_of(model, unit, k, pixels),
                across,
                lib[j].signature@,
                lib[j].image.wd() as int,
            ) as u128,
    )
}

/// Whether `item` is what indexing makes of a library image: nothing where
/// the image could not be decoded or cannot be scaled to a tile of side
/// `size`; else the image scaled to that tile, with the signature of the
/// tile's pixels.
pub open spec fn indexes<M: ColorModel>(
    model: &M,
    unit: CalculationUnit,
    k: nat,
    size: u32,
    decoded: Option<RawImage>,
    item: Option<LibItem<M::Color>>,
) -> bool {
    match decoded {
        Some(img) if scalable(img.wd(), img.ht(), size) => {
            &&& item matches Some(it)
            &&& it.image.wd() == size
            &&& it.image.ht() == size
            &&& it.image.bytes() == resized_to_fill(img.bytes(), img.wd(), img.ht(), size)
            &&& (img.wd() == size && img.ht() == size ==> it.image.bytes() == img.bytes())
            &&& it.signature@ == signature_of(model, unit, k, it.image.all())
        },
        _ => item is None,
    }
}

/// Whether a library image can be indexed: it was decoded, and it can be
/// scaled to a tile of side `size`.
pub open spec fn usable(decoded: Option<RawImage>, size: u32) -> bool {
    decoded matches Some(img) && scalable(img.wd(), img.ht(), size)
}

/// The number of library images that can be indexed.
pub open spec fn usable_count(library: Seq<Option<RawImage>>, size: u32) -> nat
    decreases library.len(),
{
    if library.len() == 0 {
        0
    } else {
        usable_count(library.drop_last(), size) + if usable(library.last(), size) {
            1nat
        } else {
            0nat
        }
    }
}

/// The number of library images that were indexed.
pub open spec fn indexed_count<C>(items: Seq<Option<LibItem<C>>>) -> nat
    decreases items.len(),
{
    if items.len() == 0 {
        0
    } else {
        indexed_count(items.drop_last()) + if items.last() is Some {
            1nat
        } else {
            0nat
        }
    }
}

/// Indexing yields one signature for each usable image of the library and
/// none for the others: an image that could not be decoded leaves a gap
/// at its place and takes nothing from the rest.
pub proof fn lemma_index_count<M: ColorModel>(
    model: &M,
    unit: CalculationUnit,
    k: nat,
    size: u32,
    library: Seq<Option<RawImage>>,
    items: Seq<Option<LibItem<M::Color>>>,
)
    requires
        items.len() == library.len(),
        forall|i: int|
            0 <= i < library.len() ==> indexes(model, unit, k, size, #[trigger] library[i], items[i]),
    ensures
        indexed_count(items) == usable_count(library, size),
        forall|i: int| 0 <= i < library.len() ==> (#[trigger] items[i] is Some <==> usable(library[i], size)),
    decreases library.len(),
{
    if library.len() > 0 {
        let n = library.len() - 1;
        assert(indexes(model, unit, k, size, library[n], items[n]));
        assert forall|i: int| 0 <= i < n implies indexes(
            model,
            unit,
            k,
            size,
            #[trigger] library.drop_last()[i],
            items.drop_last()[i],
        ) by {
            assert(indexes(model, unit, k, size, library[i], items[i]));
        }
        lemma_index_count(model, unit, k, size, library.drop_last(), items.drop_last());
        assert forall|i: int| 0 <= i < library.len() implies (#[trigger] items[i] is Some <==> usable(
            library[i],
            size,
        )) by {
            assert(indexes(model, unit, k, size, library[i], items[i]));
        }
    }
}

/// Whether `choice` is the item of the library that lies nearest to the
/// region under `mask`, the first one among equally near.
pub open spec fn chooses<M: ColorModel>(
    model: &M,
    unit: CalculationUnit,
    k: nat,
    img: &RawImage,
    mask: Mask,
    lib: Seq<LibItem<M::Color>>,
    choice: (Mask, usize),
) -> bool {
    &&& choice.0 == mask
    &&& is_first_min(scores(model, unit, k, img.window(mask), mask.2 as int, lib), choice.1 as int)
}

/// The engine of one mosaic run. What it is made with does not change.
#[derive(Debug, Clone, Copy)]
pub struct ProcessWrapper {
    size: u32,
    calc_unit: CalculationUnit,
    color_space: ColorSpace,
    dist_algo: DistanceAlgorithm,
    clusters: u32,
    hamerly: bool,
}

impl ProcessWrapper {
    #[verifier::type_invariant]
    pub closed spec fn well_formed(&self) -> bool {
        self.size > 0 && self.clusters > 0
    }

    /// The side of a tile in pixels.
    pub closed spec fn tile(&self) -> u32 {
        self.size
    }

    /// How a tile is summarised.
    pub closed spec fn unit(&self) -> CalculationUnit {
        self.calc_unit
    }

    /// The colour space in which colours are compared.
    pub closed spec fn space(&self) -> ColorSpace {
        self.color_space
    }

    /// The distance algorithm.
    pub closed spec fn algorithm(&self) -> DistanceAlgorithm {
        self.dist_algo
    }

    /// The number of clusters asked of the k-means unit.
    pub closed spec fn k(&self) -> u32 {
        self.clusters
    }

    /// Whether the k-means unit cuts its searches short.
    pub closed spec fn accelerated(&self) -> bool {
        self.hamerly
    }

    /// An engine for tiles of side `size`. The k-means unit makes one
    /// cluster, without acceleration, until `with_clusters` asks otherwise.
    pub fn new(
        size: u32,
        calc_unit: CalculationUnit,
        color_space: ColorSpace,
        dist_algo: DistanceAlgorithm,
    ) -> (engine: Self)
        requires
            size > 0,
        ensures
            engine.tile() == size,
            engine.unit() == calc_unit,
            engine.space() == color_space,
            engine.algorithm() == dist_algo,
            engine.k() == 1,
            !engine.accelerated(),
    {
        ProcessWrapper { size, calc_unit, color_space, dist_algo, clusters: 1, hamerly: false }
    }

    /// The same engine with `k` clusters for the k-means unit, which cuts
    /// its searches short if `hamerly` is set.
    pub fn with_clusters(self, k: u32, hamerly: bool) -> (engine: Self)
        requires
            k > 0,
        ensures
            engine.tile() == self.tile(),
            engine.unit() == self.unit(),
            engine.space() == self.space(),
            engine.algorithm() == self.algorithm(),
            engine.k() == k,
            engine.accelerated() == hamerly,
    {
        proof {
            use_type_invariant(&self);
        }
        ProcessWrapper {
            size: self.size,
            calc_unit: self.calc_unit,
            color_space: self.color_space,
            dist_algo: self.dist_algo,
            clusters: k,
            hamerly,
        }
    }

    pub fn size(&self) -> (size: u32)
        ensures
            size == self.tile(),
            size > 0,
    {
        proof {
            use_type_invariant(self);
        }
        self.size
    }

    pub fn calc_unit(&self) -> (unit: CalculationUnit)
        ensures
            unit == self.unit(),
    {
        self.calc_unit
    }

    pub fn color_space(&self) -> (space: ColorSpace)
        ensures
            space == self.space(),
    {
        self.color_space
    }

    pub fn dist_algo(&self) -> (algorithm: DistanceAlgorithm)
        ensures
            algorithm == self.algorithm(),
    {
        self.dist_algo
    }

    pub fn clusters(&self) -> (k: u32)
        ensures
            k == self.k(),
            k > 0,
    {
        proof {
            use_type_invariant(self);
        }
        self.clusters
    }

    pub fn hamerly(&self) -> (hamerly: bool)
        ensures
            hamerly == self.accelerated(),
    {
        self.hamerly
    }

    /// The formula by which this engine's colours are to be compared.
    pub fn formula(&self) -> (formula: Formula)
        ensures
            formula == formula_for(self.space(), self.algorithm()),
    {
        match self.dist_algo {
            DistanceAlgorithm::CIEDE2000 => Formula::Ciede2000,
            DistanceAlgorithm::Euclidean => match self.color_space {
                ColorSpace::HSV => Formula::HueWeighted,
                _ => Formula::Squared,
            },
        }
    }

    /// The colour model of this engine, where it is one whose arithmetic is
    /// exact on bytes: RGB under the Euclidean distance. The models of the
    /// other colour spaces and of CIEDE2000 work on real numbers and are
    /// the caller's to supply.
    pub fn exact_model(&self) -> (model: Option<RgbSquared>)
        ensures
            model is Some <==> self.space() == ColorSpace::RGB && self.algorithm()
                == DistanceAlgorithm::Euclidean,
    {
        match (self.color_space, self.dist_algo) {
            (ColorSpace::RGB, DistanceAlgorithm::Euclidean) => Some(RgbSquared),
            _ => None,
        }
    }

    /// Reduces a library tile to its signature, and keeps the tile with it.
    pub fn index_step<M: ColorModel>(&self, model: &M, img: RawImage) -> (item: LibItem<M::Color>)
        ensures
            item.image == img,
            item.signature@ == signature_of(model, self.unit(), self.k() as nat, img.all()),
    {
        let pixels = img.pixels();
        let sig = summarise(model, self.calc_unit, self.clusters, self.hamerly, &pixels);
        LibItem { signature: sig.colors, image: img }
    }

    /// Indexes one library image: scales it to the tile and reduces the
    /// tile to its signature. An image that could not be decoded, or that
    /// cannot be scaled, yields nothing.
    pub fn index_one<M: ColorModel>(&self, model: &M, decoded: &Option<RawImage>) -> (item: Option<
        LibItem<M::Color>,
    >)
        ensures
            indexes(model, self.unit(), self.k() as nat, self.tile(), *decoded, item),
    {
        match decoded {
            Some(img) => match img.scaled_to_fill(self.size) {
                Some(tile) => Some(self.index_step(model, tile)),
                None => None,
            },
            None => None,
        }
    }

    /// Indexes a library, image by image: the result holds at each position
    /// what `index_one` makes of the image at that position, so one image
    /// that fails costs only its own entry.
    pub fn index<M: ColorModel>(&self, model: &M, library: &Vec<Option<RawImage>>) -> (items: Vec<
        Option<LibItem<M::Color>>,
    >)
        ensures
            items@.len() == library@.len(),
            forall|i: int|
                0 <= i < library@.len() ==> indexes(
                    model,
                    self.unit(),
                    self.k() as nat,
                    self.tile(),
                    #[trigger] library@[i],
                    items@[i],
                ),
    {
        let mut items: Vec<Option<LibItem<M::Color>>> = Vec::new();
        let mut i: usize = 0;
        while i < library.len()
            invariant
                0 <= i <= library@.len(),
                items@.len() == i,
                forall|t: int|
                    0 <= t < i ==> indexes(
                        model,
                        self.unit(),
                        self.k() as nat,
                        self.tile(),
                        #[trigger] library@[t],
                        items@[t],
                    ),
            decreases library.len() - i,
        {
            let item = self.index_one(model, &library[i]);
            items.push(item);
            i = i + 1;
        }
        items
    }

    /// Picks for the region under `mask` the nearest item of the library:
    /// the region is summarised as a library tile is, its distance to every
    /// item is measured, and the least distance wins, the first one among
    /// equals. An empty library has no nearest item.
    pub fn fill_step<M: ColorModel>(
        &self,
        model: &M,
        img: &RawImage,
        mask: Mask,
        lib: &Vec<LibItem<M::Color>>,
    ) -> (choice: Option<(Mask, usize)>)
        requires
            within(mask, img.wd(), img.ht()),
        ensures
            choice is None <==> lib@.len() == 0,
            choice matches Some(c) ==> chooses(
                model,
                self.unit(),
                self.k() as nat,
                img,
                mask,
                lib@,
                c,
            ),
    {
        let pixels = img.region(mask);
        let sig = summarise(model, self.calc_unit, self.clusters, self.hamerly, &pixels);
        let ghost goal = scores(
            model,
            self.unit(),
            self.k() as nat,
            img.window(mask),
            mask.2 as int,
            lib@,
        );
        let mut found: Vec<u128> = Vec::new();
        let mut j: usize = 0;
        while j < lib.len()
            invariant
                0 <= j <= lib@.len(),
                found@.len() == j,
                goal == scores(
                    model,
                    self.unit(),
                    self.k() as nat,
                    img.window(mask),
                    mask.2 as int,
                    lib@,
                ),
                sig.colors@ == signature_of(model, self.unit(), self.k() as nat, img.window(mask)),
                sig.weights@ == weights_of(model, self.unit(), self.k() as nat, img.window(mask)),
                sig.weights@.len() == sig.colors@.len(),
                self.unit() == CalculationUnit::KMeans ==> sig.colors@.len() <= self.k(),
                forall|t: int| 0 <= t < j ==> found@[t] == goal[t],
            decreases lib.len() - j,
        {
            let item = &lib[j];
            let d = match self.calc_unit {
                CalculationUnit::Pixel => paired_distance(
                    model,
                    &sig.colors,
                    mask.2,
                    &item.signature,
                    item.image.width(),
                ),
                _ => matched_distance(model, &sig, &item.signature),
            };
            found.push(d);
            j = j + 1;
        }
        assert(found@ =~= goal);
        match nearest(&found) {
            Some(best) => Some((mask, best)),
            None => None,
        }
    }

    /// Fills every mask: the result holds at each position the choice of
    /// `fill_step` for the mask at that position. With an empty library
    /// nothing can be filled, which is reported once for all masks.
    pub fn fill<M: ColorModel>(
        &self,
        model: &M,
        img: &RawImage,
        lib: &Vec<LibItem<M::Color>>,
        masks: &Vec<Mask>,
    ) -> (choices: Option<Vec<(Mask, usize)>>)
        requires
            forall|i: int| 0 <= i < masks@.len() ==> within(#[trigger] masks@[i], img.wd(), img.ht()),
        ensures
            choices is None <==> lib@.len() == 0,
            choices matches Some(found) ==> {
                &&& found@.len() == masks@.len()
                &&& forall|i: int|
                    0 <= i < masks@.len() ==> chooses(
                        model,
                        self.unit(),
                        self.k() as nat,
                        img,
                        masks@[i],
                        lib@,
                        #[trigger] found@[i],
                    )
            },
    {
        if lib.len() == 0 {
            return None;
        }
        let mut found: Vec<(Mask, usize)> = Vec::new();
        let mut i: usize = 0;
        while i < masks.len()
            invariant
                lib@.len() > 0,
                0 <= i <= masks@.len(),
                found@.len() == i,
                forall|t: int|
                    0 <= t < masks@.len() ==> within(#[trigger] masks@[t], img.wd(), img.ht()),
                forall|t: int|
                    0 <= t < i ==> chooses(
                        model,
                        self.unit(),
                        self.k() as nat,
                        img,
                        masks@[t],
                        lib@,
                        #[trigger] found@[t],
                    ),
            decreases masks.len() - i,
        {
            match self.fill_step(model, img, masks[i], lib) {
                Some(choice) => {
                    found.push(choice);
                },
                None => {
                    proof {
                        assert(false);
                    }
                },
            }
            i = i + 1;
        }
        Some(found)
    }
}

} // verus!
