//! Image manifests and the rule that merges an incoming manifest into the
//! stored one.

use vstd::prelude::*;
use crate::digest::{is_digest_text, Digest};

verus! {

/// Model of a [`Config`].
pub struct ConfigModel {
    pub media_type: Seq<char>,
    pub size: Option<usize>,
    pub digest: Seq<char>,
}

/// Model of a [`Layer`].
pub struct LayerModel {
    pub media_type: Seq<char>,
    pub size: Option<usize>,
    pub digest: Seq<char>,
    pub urls: Option<Seq<Seq<char>>>,
}

/// Model of an [`ImageManifest`].
pub struct ManifestModel {
    pub schema_version: u8,
    pub media_type: Seq<char>,
    pub config: ConfigModel,
    pub layers: Seq<LayerModel>,
}

/// Descriptor of the image's configuration blob. A config without a size
/// is not yet known in full.
#[derive(Debug)]
pub struct Config {
    pub media_type: String,
    pub size: Option<usize>,
    pub digest: String,
}

/// Descriptor of one filesystem layer.
#[derive(Debug)]
pub struct Layer {
    pub media_type: String,
    pub size: Option<usize>,
    pub digest: String,
    pub urls: Option<Vec<String>>,
}

/// The manifest of an image: its config and its layers, bottom layer first.
#[derive(Debug)]
pub struct ImageManifest {
    pub schema_version: u8,
    pub media_type: String,
    pub config: Config,
    pub layers: Vec<Layer>,
}

/// The texts of `list`, in order.
pub open spec fn texts(list: Seq<String>) -> Seq<Seq<char>> {
    Seq::new(list.len(), |i: int| list[i]@)
}

/// The models of `layers`, in order.
pub open spec fn layer_models(layers: Seq<Layer>) -> Seq<LayerModel> {
    Seq::new(layers.len(), |i: int| layers[i]@)
}

impl View for Config {
    type V = ConfigModel;

    open spec fn view(&self) -> ConfigModel {
        ConfigModel { media_type: self.media_type@, size: self.size, digest: self.digest@ }
    }
}

impl View for Layer {
    type V = LayerModel;

    open spec fn view(&self) -> LayerModel {
        LayerModel {
            media_type: self.media_type@,
            size: self.size,
            digest: self.digest@,
            urls: match self.urls {
                Some(list) => Some(texts(list@)),
                None => None,
            },
        }
    }
}

impl View for ImageManifest {
    type V = ManifestModel;

    open spec fn view(&self) -> ManifestModel {
        ManifestModel {
            schema_version: self.schema_version,
            media_type: self.media_type@,
            config: self.config@,
            layers: layer_models(self.layers@),
        }
    }
}

impl ConfigModel {
    /// A config names its media type and a well-formed digest.
    pub open spec fn valid(self) -> bool {
        self.media_type.len() > 0 && is_digest_text(self.digest)
    }
}

impl LayerModel {
    /// A layer names its media type and a well-formed digest.
    pub open spec fn valid(self) -> bool {
        self.media_type.len() > 0 && is_digest_text(self.digest)
    }
}

impl ManifestModel {
    /// A manifest is valid when no required field is missing: it names its
    /// media type, and its config and every layer are valid.
    pub open spec fn valid(self) -> bool {
        &&& self.media_type.len() > 0
        &&& self.config.valid()
        &&& forall|i: int| 0 <= i < self.layers.len() ==> (#[trigger] self.layers[i]).valid()
    }

    /// The stored manifest after `incoming` was merged into it.
    ///
    /// The config is replaced only by a config that declares its size. Of the
    /// incoming layers only those beyond the stored ones are taken, in order;
    /// stored layers are neither dropped nor reordered.
    pub open spec fn merge(self, incoming: ManifestModel) -> ManifestModel {
        ManifestModel {
            schema_version: self.schema_version,
            media_type: self.media_type,
            config: if incoming.config.size is Some {
                incoming.config
            } else {
                self.config
            },
            layers: if incoming.layers.len() > self.layers.len() {
                self.layers + incoming.layers.subrange(
                    self.layers.len() as int,
                    incoming.layers.len() as int,
                )
            } else {
                self.layers
            },
        }
    }
}

/// A copy of a list of texts.
fn clone_texts(list: &Vec<String>) -> (copy: Vec<String>)
    ensures
        texts(copy@) == texts(list@),
{
    let mut copy: Vec<String> = Vec::new();
    let mut i: usize = 0;
    while i < list.len()
        invariant
            i <= list@.len(),
            copy@.len() == i,
            forall|j: int| 0 <= j < i ==> copy@[j]@ == list@[j]@,
        decreases list@.len() - i,
    {
        copy.push(list[i].clone());
        i = i + 1;
    }
    assert(texts(copy@) =~= texts(list@));
    copy
}

impl Clone for Config {
    fn clone(&self) -> (copy: Self)
        ensures
            copy@ == self@,
    {
        Config {
            media_type: self.media_type.clone(),
            size: self.size,
            digest: self.digest.clone(),
        }
    }
}

impl Clone for Layer {
    fn clone(&self) -> (copy: Self)
        ensures
            copy@ == self@,
    {
        let urls = match &self.urls {
            Some(list) => Some(clone_texts(list)),
            None => None,
        };
        Layer {
            media_type: self.media_type.clone(),
            size: self.size,
            digest: self.digest.clone(),
            urls,
        }
    }
}

/// A copy of a list of layers.
fn clone_layers(layers: &Vec<Layer>) -> (copy: Vec<Layer>)
    ensures
        layer_models(copy@) == layer_models(layers@),
{
    let mut copy: Vec<Layer> = Vec::new();
    let mut i: usize = 0;
    while i < layers.len()
        invariant
            i <= layers@.len(),
            copy@.len() == i,
            forall|j: int| 0 <= j < i ==> copy@[j]@ == layers@[j]@,
        decreases layers@.len() - i,
    {
        copy.push(layers[i].clone());
        i = i + 1;
    }
    assert(layer_models(copy@) =~= layer_models(layers@));
    copy
}

impl Clone for ImageManifest {
    fn clone(&self) -> (copy: Self)
        ensures
            copy@ == self@,
    {
        ImageManifest {
            schema_version: self.schema_version,
            media_type: self.media_type.clone(),
            config: self.config.clone(),
            layers: clone_layers(&self.layers),
        }
    }
}

impl Config {
    /// Whether the config names its media type and a well-formed digest.
    pub fn is_valid(&self) -> (ok: bool)
        ensures
            ok == self@.valid(),
    {
        !self.media_type.as_str().is_empty() && Digest::parse(self.digest.as_str()).is_some()
    }
}

impl Layer {
    /// Whether the layer names its media type and a well-formed digest.
    pub fn is_valid(&self) -> (ok: bool)
        ensures
            ok == self@.valid(),
    {
        !self.media_type.as_str().is_empty() && Digest::parse(self.digest.as_str()).is_some()
    }
}

impl ImageManifest {
    /// Whether no required field of the manifest is missing or malformed.
    pub fn is_valid(&self) -> (ok: bool)
        ensures
            ok == self@.valid(),
    {
        if self.media_type.as_str().is_empty() || !self.config.is_valid() {
            return false;
        }
        let mut i: usize = 0;
        while i < self.layers.len()
            invariant
                i <= self.layers@.len(),
                forall|j: int| 0 <= j < i ==> (#[trigger] self@.layers[j]).valid(),
            decreases self.layers@.len() - i,
        {
            if !self.layers[i].is_valid() {
                assert(!self@.layers[i as int].valid());
                return false;
            }
            i = i + 1;
        }
        true
    }

    /// Merges `incoming` into this stored manifest and returns the result.
    pub fn merge(&self, incoming: ImageManifest) -> (merged: ImageManifest)
        ensures
            merged@ == self@.merge(incoming@),
    {
        let ImageManifest { schema_version: _, media_type: _, config, layers } = incoming;
        let ghost incoming_layers = layer_models(layers@);
        let config = if config.size.is_some() {
            config
        } else {
            self.config.clone()
        };
        let mut layers = layers;
        let mut merged_layers = clone_layers(&self.layers);
        if self.layers.len() < layers.len() {
            let mut tail = layers.split_off(self.layers.len());
            merged_layers.append(&mut tail);
            proof {
                assert(layer_models(merged_layers@) =~= self@.layers + incoming_layers.subrange(
                    self@.layers.len() as int,
                    incoming_layers.len() as int,
                ));
            }
        }
        ImageManifest {
            schema_version: self.schema_version,
            media_type: self.media_type.clone(),
            config,
            layers: merged_layers,
        }
    }
}

} // verus!
