//! The ordered store of layers.
//!
//! Each stroke owns one layer. A layer is reserved, empty, when its stroke
//! starts, and its geometry is replaced in place while the stroke is drawn.
//! Order keys count up from `FIRST_ORDER` by one; they are never reused, and
//! the renderer's layer limit bounds them.

use vstd::prelude::*;
use crate::geometry::Vertex;
use crate::outline::OutlinePolygon;

verus! {

/// The key of the first layer of a store.
pub const FIRST_ORDER: u32 = 1;

/// The largest order key the renderer can take: `forma_render::Order::MAX`.
/// The renderer packs a layer's order into the 21 bits that tile and pixel
/// coordinates, area and cover leave free in a 64-bit pixel segment.
pub const MAX_ORDER: u32 = 2097151;

/// The renderer's draw order, `forma_render::Order`: opaque here.
#[verifier::external_type_specification]
#[verifier::external_body]
pub struct ExOrder(forma_render::Order);

/// The renderer's refusal of a draw order, `forma_render::OrderError`: opaque
/// here.
#[verifier::external_type_specification]
#[verifier::external_body]
pub struct ExOrderError(forma_render::OrderError);

/// `forma_render::Order::new` turns a number into a draw order of the
/// renderer. It accepts exactly the numbers up to the renderer's layer limit,
/// which is `MAX_ORDER`, and fails on every other.
#[verifier::external_body]
fn order_new(key: u32) -> (r: Result<forma_render::Order, forma_render::OrderError>)
    ensures
        r.is_ok() == (key <= MAX_ORDER),
{
    forma_render::Order::new(key)
}

/// Why a store refused an operation.
#[derive(Clone, Copy, Debug, PartialEq, Eq, Structural)]
pub enum LayerError {
    /// No further key fits under the renderer's layer limit.
    ExceededLayerLimit,
    /// The key was never reserved in this store.
    UnknownOrder,
}

/// One drawable layer.
#[derive(Debug)]
pub struct Layer {
    pub order_key: u32,
    pub geometry: OutlinePolygon,
}

/// The layers of a canvas, in draw order. The keys of a store count up from
/// `FIRST_ORDER` by one, whatever is done with it.
#[derive(Debug)]
pub struct LayerStore {
    layers: Vec<Layer>,
}

/// The key that the next reservation in a store with these layers gets.
pub open spec fn next_key(layers: Seq<(u32, Seq<Vertex>)>) -> int {
    FIRST_ORDER + layers.len()
}

/// The layers after a reservation: one more, empty, under the next key.
pub open spec fn reserved(layers: Seq<(u32, Seq<Vertex>)>) -> Seq<(u32, Seq<Vertex>)> {
    layers.push((next_key(layers) as u32, Seq::empty()))
}

/// The layers after the geometry under `key` is replaced.
pub open spec fn replaced(layers: Seq<(u32, Seq<Vertex>)>, key: u32, geometry: Seq<Vertex>) -> Seq<
    (u32, Seq<Vertex>),
> {
    layers.update(key - FIRST_ORDER, (key, geometry))
}

/// `key` was handed out by a store with these layers.
pub open spec fn is_reserved(layers: Seq<(u32, Seq<Vertex>)>, key: u32) -> bool {
    FIRST_ORDER <= key < next_key(layers)
}

/// The keys count up from `FIRST_ORDER` by one and stay under the limit.
pub open spec fn keys_ordered(layers: Seq<(u32, Seq<Vertex>)>) -> bool {
    &&& next_key(layers) <= MAX_ORDER + 1
    &&& forall|i: int| 0 <= i < layers.len() ==> (#[trigger] layers[i]).0 == FIRST_ORDER + i
}

/// Keys grow with the position in the store, so none occurs twice.
pub proof fn lemma_keys_increasing(layers: Seq<(u32, Seq<Vertex>)>, i: int, j: int)
    requires
        keys_ordered(layers),
        0 <= i < j < layers.len(),
    ensures
        layers[i].0 < layers[j].0,
        is_reserved(layers, layers[i].0),
        is_reserved(layers, layers[j].0),
{
}

/// Each reservation hands out the key one above the one before it, above
/// every key in the store, and leaves the layers that were there as they
/// were.
pub proof fn lemma_reserve_successive(layers: Seq<(u32, Seq<Vertex>)>)
    requires
        keys_ordered(layers),
        next_key(layers) < MAX_ORDER,
    ensures
        keys_ordered(reserved(layers)),
        keys_ordered(reserved(reserved(layers))),
        next_key(reserved(layers)) == next_key(layers) + 1,
        reserved(reserved(layers)).last().0 == reserved(layers).last().0 + 1,
        forall|i: int| 0 <= i < layers.len() ==> (#[trigger] layers[i]).0 < next_key(layers),
        forall|i: int| 0 <= i < layers.len() ==> reserved(layers)[i] == layers[i],
{
}

/// Replacing geometry neither adds nor removes a key.
pub proof fn lemma_replace_keeps_keys(layers: Seq<(u32, Seq<Vertex>)>, key: u32, geometry: Seq<Vertex>)
    requires
        keys_ordered(layers),
        is_reserved(layers, key),
    ensures
        keys_ordered(replaced(layers, key, geometry)),
        replaced(layers, key, geometry).len() == layers.len(),
        forall|i: int|
            0 <= i < layers.len() ==> (#[trigger] replaced(layers, key, geometry)[i]).0
                == layers[i].0,
        forall|i: int|
            0 <= i < layers.len() && i != key - FIRST_ORDER ==> replaced(layers, key, geometry)[i]
                == layers[i],
{
}

/// Key and geometry of each layer of a sequence.
pub open spec fn layers_view(layers: Seq<Layer>) -> Seq<(u32, Seq<Vertex>)> {
    Seq::new(layers.len(), |i: int| (layers[i].order_key, layers[i].geometry@))
}

impl View for LayerStore {
    type V = Seq<(u32, Seq<Vertex>)>;

    closed spec fn view(&self) -> Seq<(u32, Seq<Vertex>)> {
        layers_view(self.layers@)
    }
}

impl LayerStore {
    /// What holds of every store.
    #[verifier::type_invariant]
    pub open spec fn ordered(&self) -> bool {
        keys_ordered(self@)
    }

    /// A store without layers.
    pub fn new() -> (store: Self)
        ensures
            store@ == Seq::<(u32, Seq<Vertex>)>::empty(),
    {
        let layers: Vec<Layer> = Vec::new();
        assert(layers_view(layers@) =~= Seq::<(u32, Seq<Vertex>)>::empty());
        LayerStore { layers }
    }

    /// Takes the layers out of the store, which is left empty.
    fn take_layers(&mut self) -> (layers: Vec<Layer>)
        ensures
            layers_view(layers@) == old(self)@,
            keys_ordered(old(self)@),
            final(self)@ == Seq::<(u32, Seq<Vertex>)>::empty(),
    {
        proof {
            use_type_invariant(&*self);
        }
        let mut taken = LayerStore::new();
        core::mem::swap(self, &mut taken);
        let LayerStore { layers } = taken;
        layers
    }

    /// The number of keys reserved so far.
    pub fn len(&self) -> (n: usize)
        ensures
            n == self@.len(),
            keys_ordered(self@),
    {
        proof {
            use_type_invariant(self);
        }
        self.layers.len()
    }

    /// Reserves the next key, with an empty layer under it. Fails, and changes
    /// nothing, once the keys under the renderer's layer limit are used up.
    pub fn reserve_next(&mut self) -> (r: Result<u32, LayerError>)
        ensures
            keys_ordered(old(self)@),
            keys_ordered(final(self)@),
            match r {
                Ok(key) => {
                    &&& next_key(old(self)@) <= MAX_ORDER
                    &&& key == next_key(old(self)@)
                    &&& final(self)@ == reserved(old(self)@)
                },
                Err(e) => {
                    &&& next_key(old(self)@) > MAX_ORDER
                    &&& e == LayerError::ExceededLayerLimit
                    &&& final(self)@ == old(self)@
                },
            },
    {
        proof {
            use_type_invariant(&*self);
        }
        let key: u32 = FIRST_ORDER + self.layers.len() as u32;
        match order_new(key) {
            Ok(_) => {
                let mut layers = self.take_layers();
                layers.push(Layer { order_key: key, geometry: OutlinePolygon { vertices: Vec::new() } });
                assert(layers_view(layers@) =~= reserved(old(self)@));
                *self = LayerStore { layers };
                Ok(key)
            },
            Err(_) => Err(LayerError::ExceededLayerLimit),
        }
    }

    /// Replaces the geometry under a reserved key. Fails, and changes nothing,
    /// for a key that was never reserved.
    pub fn replace(&mut self, order_key: u32, geometry: OutlinePolygon) -> (r: Result<(), LayerError>)
        ensures
            keys_ordered(old(self)@),
            keys_ordered(final(self)@),
            match r {
                Ok(_) => {
                    &&& is_reserved(old(self)@, order_key)
                    &&& final(self)@ == replaced(old(self)@, order_key, geometry@)
                },
                Err(e) => {
                    &&& !is_reserved(old(self)@, order_key)
                    &&& e == LayerError::UnknownOrder
                    &&& final(self)@ == old(self)@
                },
            },
    {
        proof {
            use_type_invariant(&*self);
        }
        if order_key < FIRST_ORDER || (order_key - FIRST_ORDER) as usize >= self.layers.len() {
            return Err(LayerError::UnknownOrder);
        }
        let index: usize = (order_key - FIRST_ORDER) as usize;
        let mut layers = self.take_layers();
        layers.set(index, Layer { order_key, geometry });
        assert(layers_view(layers@) =~= replaced(old(self)@, order_key, geometry@));
        *self = LayerStore { layers };
        Ok(())
    }

    /// The geometry under a key, if the key was reserved.
    pub fn get(&self, order_key: u32) -> (r: Option<&OutlinePolygon>)
        ensures
            keys_ordered(self@),
            match r {
                Some(geometry) => is_reserved(self@, order_key) && geometry@ == self@[order_key
                    - FIRST_ORDER].1,
                None => !is_reserved(self@, order_key),
            },
    {
        proof {
            use_type_invariant(self);
        }
        if order_key < FIRST_ORDER || (order_key - FIRST_ORDER) as usize >= self.layers.len() {
            return None;
        }
        let index: usize = (order_key - FIRST_ORDER) as usize;
        Some(&self.layers[index].geometry)
    }

    /// The key reserved last, if any was.
    pub fn last_key(&self) -> (r: Option<u32>)
        ensures
            keys_ordered(self@),
            match r {
                Some(key) => self@.len() > 0 && key == self@.last().0 && key == next_key(self@) - 1,
                None => self@.len() == 0,
            },
    {
        proof {
            use_type_invariant(self);
        }
        let n: usize = self.layers.len();
        if n == 0 {
            None
        } else {
            Some(n as u32)
        }
    }

    /// The layers in draw order: ascending by key, later keys on top.
    pub fn iter_ordered(&self) -> (layers: &Vec<Layer>)
        ensures
            keys_ordered(self@),
            layers_view(layers@) == self@,
    {
        proof {
            use_type_invariant(self);
        }
        &self.layers
    }
}

} // verus!
