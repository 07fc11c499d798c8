//! Values that predictors take and return, and the signatures that describe them.
//!
//! Floating-point payloads are carried by their bit patterns.

use crate::json::{json_clone, json_object_clone};
use serde_json::Value as JsonValue;
use vstd::prelude::*;

verus! {

/// Data type of a value.
#[derive(Clone, Copy, Debug, PartialEq, Eq, Structural)]
pub enum Dtype {
    Null,
    BFloat16,
    Float16,
    Float32,
    Float64,
    Int8,
    Int16,
    Int32,
    Int64,
    Uint8,
    Uint16,
    Uint32,
    Uint64,
    Complex64,
    Complex128,
    Bool,
    String,
    List,
    Dict,
    Image,
    Binary,
    ImageList,
    ArrayList,
}

/// Elements of a tensor. Floating-point elements are bit patterns, complex
/// elements are pairs of them.
#[derive(Debug)]
pub enum TensorData {
    Float32(Vec<u32>),
    Float64(Vec<u64>),
    Int8(Vec<i8>),
    Int16(Vec<i16>),
    Int32(Vec<i32>),
    Int64(Vec<i64>),
    Uint8(Vec<u8>),
    Uint16(Vec<u16>),
    Uint32(Vec<u32>),
    Uint64(Vec<u64>),
    Complex64(Vec<(u32, u32)>),
    Complex128(Vec<(u64, u64)>),
    Bool(Vec<bool>),
}

/// Tensor elements as a type and a sequence of numbers; the second number of an
/// element is the imaginary part of a complex one and zero otherwise.
#[verifier::ext_equal]
pub struct TensorDataView {
    pub dtype: Dtype,
    pub items: Seq<(int, int)>,
}

impl View for TensorData {
    type V = TensorDataView;

    open spec fn view(&self) -> TensorDataView {
        match self {
            TensorData::Float32(v) => TensorDataView {
                dtype: Dtype::Float32,
                items: v@.map_values(|x: u32| (x as int, 0int)),
            },
            TensorData::Float64(v) => TensorDataView {
                dtype: Dtype::Float64,
                items: v@.map_values(|x: u64| (x as int, 0int)),
            },
            TensorData::Int8(v) => TensorDataView {
                dtype: Dtype::Int8,
                items: v@.map_values(|x: i8| (x as int, 0int)),
            },
            TensorData::Int16(v) => TensorDataView {
                dtype: Dtype::Int16,
                items: v@.map_values(|x: i16| (x as int, 0int)),
            },
            TensorData::Int32(v) => TensorDataView {
                dtype: Dtype::Int32,
                items: v@.map_values(|x: i32| (x as int, 0int)),
            },
            TensorData::Int64(v) => TensorDataView {
                dtype: Dtype::Int64,
                items: v@.map_values(|x: i64| (x as int, 0int)),
            },
            TensorData::Uint8(v) => TensorDataView {
                dtype: Dtype::Uint8,
                items: v@.map_values(|x: u8| (x as int, 0int)),
            },
            TensorData::Uint16(v) => TensorDataView {
                dtype: Dtype::Uint16,
                items: v@.map_values(|x: u16| (x as int, 0int)),
            },
            TensorData::Uint32(v) => TensorDataView {
                dtype: Dtype::Uint32,
                items: v@.map_values(|x: u32| (x as int, 0int)),
            },
            TensorData::Uint64(v) => TensorDataView {
                dtype: Dtype::Uint64,
                items: v@.map_values(|x: u64| (x as int, 0int)),
            },
            TensorData::Complex64(v) => TensorDataView {
                dtype: Dtype::Complex64,
                items: v@.map_values(|x: (u32, u32)| (x.0 as int, x.1 as int)),
            },
            TensorData::Complex128(v) => TensorDataView {
                dtype: Dtype::Complex128,
                items: v@.map_values(|x: (u64, u64)| (x.0 as int, x.1 as int)),
            },
            TensorData::Bool(v) => TensorDataView {
                dtype: Dtype::Bool,
                items: v@.map_values(|x: bool| (if x { 1int } else { 0int }, 0int)),
            },
        }
    }
}

/// The elements of a vector from one position up to another.
pub fn slice_of<T: Copy>(v: &Vec<T>, start: usize, end: usize) -> (r: Vec<T>)
    requires
        start <= end <= v@.len(),
    ensures
        r@ == v@.subrange(start as int, end as int),
{
    let mut out: Vec<T> = Vec::new();
    let mut i: usize = start;
    while i < end
        invariant
            start <= i <= end <= v@.len(),
            out@ == v@.subrange(start as int, i as int),
        decreases end - i,
    {
        out.push(v[i]);
        i = i + 1;
    }
    out
}

impl TensorData {
    /// Data type of the elements.
    pub fn dtype(&self) -> (r: Dtype)
        ensures
            r == self@.dtype,
    {
        match self {
            TensorData::Float32(_) => Dtype::Float32,
            TensorData::Float64(_) => Dtype::Float64,
            TensorData::Int8(_) => Dtype::Int8,
            TensorData::Int16(_) => Dtype::Int16,
            TensorData::Int32(_) => Dtype::Int32,
            TensorData::Int64(_) => Dtype::Int64,
            TensorData::Uint8(_) => Dtype::Uint8,
            TensorData::Uint16(_) => Dtype::Uint16,
            TensorData::Uint32(_) => Dtype::Uint32,
            TensorData::Uint64(_) => Dtype::Uint64,
            TensorData::Complex64(_) => Dtype::Complex64,
            TensorData::Complex128(_) => Dtype::Complex128,
            TensorData::Bool(_) => Dtype::Bool,
        }
    }

    /// Number of elements.
    pub fn len(&self) -> (r: usize)
        ensures
            r == self@.items.len(),
    {
        match self {
            TensorData::Float32(v) => v.len(),
            TensorData::Float64(v) => v.len(),
            TensorData::Int8(v) => v.len(),
            TensorData::Int16(v) => v.len(),
            TensorData::Int32(v) => v.len(),
            TensorData::Int64(v) => v.len(),
            TensorData::Uint8(v) => v.len(),
            TensorData::Uint16(v) => v.len(),
            TensorData::Uint32(v) => v.len(),
            TensorData::Uint64(v) => v.len(),
            TensorData::Complex64(v) => v.len(),
            TensorData::Complex128(v) => v.len(),
            TensorData::Bool(v) => v.len(),
        }
    }

    /// The elements from one position up to another.
    pub fn slice(&self, start: usize, end: usize) -> (r: TensorData)
        requires
            start <= end <= self@.items.len(),
        ensures
            r@.dtype == self@.dtype,
            r@.items == self@.items.subrange(start as int, end as int),
    {
        match self {
            TensorData::Float32(v) => TensorData::Float32(slice_of(v, start, end)),
            TensorData::Float64(v) => TensorData::Float64(slice_of(v, start, end)),
            TensorData::Int8(v) => TensorData::Int8(slice_of(v, start, end)),
            TensorData::Int16(v) => TensorData::Int16(slice_of(v, start, end)),
            TensorData::Int32(v) => TensorData::Int32(slice_of(v, start, end)),
            TensorData::Int64(v) => TensorData::Int64(slice_of(v, start, end)),
            TensorData::Uint8(v) => TensorData::Uint8(slice_of(v, start, end)),
            TensorData::Uint16(v) => TensorData::Uint16(slice_of(v, start, end)),
            TensorData::Uint32(v) => TensorData::Uint32(slice_of(v, start, end)),
            TensorData::Uint64(v) => TensorData::Uint64(slice_of(v, start, end)),
            TensorData::Complex64(v) => TensorData::Complex64(slice_of(v, start, end)),
            TensorData::Complex128(v) => TensorData::Complex128(slice_of(v, start, end)),
            TensorData::Bool(v) => TensorData::Bool(slice_of(v, start, end)),
        }
    }
}

impl Clone for TensorData {
    fn clone(&self) -> (r: Self)
        ensures
            r@ == self@,
    {
        let n: usize = self.len();
        let r = self.slice(0, n);
        assert(r@.items =~= self@.items);
        r
    }
}

/// Tensor value.
#[derive(Debug)]
pub struct Tensor {
    /// Elements in row-major order.
    pub data: TensorData,
    /// Extent of each dimension.
    pub shape: Vec<i32>,
}

#[verifier::ext_equal]
pub struct TensorView {
    pub data: TensorDataView,
    pub shape: Seq<i32>,
}

impl View for Tensor {
    type V = TensorView;

    open spec fn view(&self) -> TensorView {
        TensorView { data: self.data@, shape: self.shape@ }
    }
}

impl Clone for Tensor {
    fn clone(&self) -> (r: Self)
        ensures
            r@ == self@,
    {
        let shape: Vec<i32> = slice_of(&self.shape, 0, self.shape.len());
        assert(shape@ =~= self.shape@);
        Tensor { data: self.data.clone(), shape }
    }
}

/// Image value.
#[derive(Debug)]
pub struct Image {
    /// Pixel buffer.
    pub data: Vec<u8>,
    pub width: u32,
    pub height: u32,
    pub channels: u32,
}

#[verifier::ext_equal]
pub struct ImageView {
    pub data: Seq<u8>,
    pub width: u32,
    pub height: u32,
    pub channels: u32,
}

impl View for Image {
    type V = ImageView;

    open spec fn view(&self) -> ImageView {
        ImageView {
            data: self.data@,
            width: self.width,
            height: self.height,
            channels: self.channels,
        }
    }
}

impl Clone for Image {
    fn clone(&self) -> (r: Self)
        ensures
            r@ == self@,
    {
        let data: Vec<u8> = slice_of(&self.data, 0, self.data.len());
        assert(data@ =~= self.data@);
        Image { data, width: self.width, height: self.height, channels: self.channels }
    }
}

/// Prediction value.
#[derive(Debug)]
pub enum Value {
    Null,
    /// Single-precision number, as bits.
    Float(u32),
    /// Double-precision number, as bits.
    Double(u64),
    Int(i32),
    Long(i64),
    Bool(bool),
    String(String),
    List(Vec<JsonValue>),
    Dict(serde_json::Map<String, JsonValue>),
    Tensor(Tensor),
    Image(Image),
    ImageList(Vec<Image>),
    ArrayList(Vec<Tensor>),
    Binary(Vec<u8>),
}

#[verifier::ext_equal]
pub enum ValueView {
    Null,
    Float(u32),
    Double(u64),
    Int(i32),
    Long(i64),
    Bool(bool),
    String(Seq<char>),
    List(Seq<JsonValue>),
    Dict(serde_json::Map<String, JsonValue>),
    Tensor(TensorView),
    Image(ImageView),
    ImageList(Seq<ImageView>),
    ArrayList(Seq<TensorView>),
    Binary(Seq<u8>),
}

impl View for Value {
    type V = ValueView;

    open spec fn view(&self) -> ValueView {
        match self {
            Value::Null => ValueView::Null,
            Value::Float(bits) => ValueView::Float(*bits),
            Value::Double(bits) => ValueView::Double(*bits),
            Value::Int(i) => ValueView::Int(*i),
            Value::Long(l) => ValueView::Long(*l),
            Value::Bool(b) => ValueView::Bool(*b),
            Value::String(s) => ValueView::String(s@),
            Value::List(items) => ValueView::List(items@),
            Value::Dict(object) => ValueView::Dict(*object),
            Value::Tensor(tensor) => ValueView::Tensor(tensor@),
            Value::Image(image) => ValueView::Image(image@),
            Value::ImageList(images) => ValueView::ImageList(images@.map_values(|i: Image| i@)),
            Value::ArrayList(tensors) => ValueView::ArrayList(tensors@.map_values(|t: Tensor| t@)),
            Value::Binary(bytes) => ValueView::Binary(bytes@),
        }
    }
}

/// The JSON values from one position up to another.
pub fn slice_json(v: &Vec<JsonValue>, start: usize, end: usize) -> (r: Vec<
    JsonValue,
>)
    requires
        start <= end <= v@.len(),
    ensures
        r@ == v@.subrange(start as int, end as int),
{
    let mut out: Vec<JsonValue> = Vec::new();
    let mut i: usize = start;
    while i < end
        invariant
            start <= i <= end <= v@.len(),
            out@ == v@.subrange(start as int, i as int),
        decreases end - i,
    {
        out.push(json_clone(&v[i]));
        i = i + 1;
    }
    out
}

impl Clone for Value {
    fn clone(&self) -> (r: Self)
        ensures
            r@ == self@,
    {
        match self {
            Value::Null => Value::Null,
            Value::Float(bits) => Value::Float(*bits),
            Value::Double(bits) => Value::Double(*bits),
            Value::Int(i) => Value::Int(*i),
            Value::Long(l) => Value::Long(*l),
            Value::Bool(b) => Value::Bool(*b),
            Value::String(s) => Value::String(s.clone()),
            Value::List(items) => {
                let copy: Vec<JsonValue> = slice_json(items, 0, items.len());
                assert(copy@ =~= items@);
                Value::List(copy)
            },
            Value::Dict(object) => Value::Dict(json_object_clone(object)),
            Value::Tensor(tensor) => Value::Tensor(tensor.clone()),
            Value::Image(image) => Value::Image(image.clone()),
            Value::ImageList(images) => {
                let mut copy: Vec<Image> = Vec::new();
                let mut i: usize = 0;
                while i < images.len()
                    invariant
                        i <= images@.len(),
                        copy@.len() == i,
                        forall|j: int| 0 <= j < i ==> (#[trigger] copy@[j])@ == images@[j]@,
                    decreases images.len() - i,
                {
                    copy.push(images[i].clone());
                    i = i + 1;
                }
                assert(copy@.map_values(|i: Image| i@) =~= images@.map_values(|i: Image| i@));
                Value::ImageList(copy)
            },
            Value::ArrayList(tensors) => {
                let mut copy: Vec<Tensor> = Vec::new();
                let mut i: usize = 0;
                while i < tensors.len()
                    invariant
                        i <= tensors@.len(),
                        copy@.len() == i,
                        forall|j: int| 0 <= j < i ==> (#[trigger] copy@[j])@ == tensors@[j]@,
                    decreases tensors.len() - i,
                {
                    copy.push(tensors[i].clone());
                    i = i + 1;
                }
                assert(copy@.map_values(|t: Tensor| t@) =~= tensors@.map_values(|t: Tensor| t@));
                Value::ArrayList(copy)
            },
            Value::Binary(bytes) => {
                let copy: Vec<u8> = slice_of(bytes, 0, bytes.len());
                assert(copy@ =~= bytes@);
                Value::Binary(copy)
            },
        }
    }
}

/// Nothing of a tensor is lost in its view: elements that are seen alike are of
/// the same type and equal one by one.
pub proof fn law_tensor_views_are_faithful(a: TensorData, b: TensorData)
    requires
        a@ == b@,
    ensures
        match (a, b) {
            (TensorData::Float32(v), TensorData::Float32(w)) => v@ == w@,
            (TensorData::Float64(v), TensorData::Float64(w)) => v@ == w@,
            (TensorData::Int8(v), TensorData::Int8(w)) => v@ == w@,
            (TensorData::Int16(v), TensorData::Int16(w)) => v@ == w@,
            (TensorData::Int32(v), TensorData::Int32(w)) => v@ == w@,
            (TensorData::Int64(v), TensorData::Int64(w)) => v@ == w@,
            (TensorData::Uint8(v), TensorData::Uint8(w)) => v@ == w@,
            (TensorData::Uint16(v), TensorData::Uint16(w)) => v@ == w@,
            (TensorData::Uint32(v), TensorData::Uint32(w)) => v@ == w@,
            (TensorData::Uint64(v), TensorData::Uint64(w)) => v@ == w@,
            (TensorData::Complex64(v), TensorData::Complex64(w)) => v@ == w@,
            (TensorData::Complex128(v), TensorData::Complex128(w)) => v@ == w@,
            (TensorData::Bool(v), TensorData::Bool(w)) => v@ == w@,
            _ => false,
        },
{
    match (a, b) {
        (TensorData::Float32(v), TensorData::Float32(w)) => {
            lemma_same_elements(v@, w@, |x: u32| (x as int, 0int));
        },
        (TensorData::Float64(v), TensorData::Float64(w)) => {
            lemma_same_elements(v@, w@, |x: u64| (x as int, 0int));
        },
        (TensorData::Int8(v), TensorData::Int8(w)) => {
            lemma_same_elements(v@, w@, |x: i8| (x as int, 0int));
        },
        (TensorData::Int16(v), TensorData::Int16(w)) => {
            lemma_same_elements(v@, w@, |x: i16| (x as int, 0int));
        },
        (TensorData::Int32(v), TensorData::Int32(w)) => {
            lemma_same_elements(v@, w@, |x: i32| (x as int, 0int));
        },
        (TensorData::Int64(v), TensorData::Int64(w)) => {
            lemma_same_elements(v@, w@, |x: i64| (x as int, 0int));
        },
        (TensorData::Uint8(v), TensorData::Uint8(w)) => {
            lemma_same_elements(v@, w@, |x: u8| (x as int, 0int));
        },
        (TensorData::Uint16(v), TensorData::Uint16(w)) => {
            lemma_same_elements(v@, w@, |x: u16| (x as int, 0int));
        },
        (TensorData::Uint32(v), TensorData::Uint32(w)) => {
            lemma_same_elements(v@, w@, |x: u32| (x as int, 0int));
        },
        (TensorData::Uint64(v), TensorData::Uint64(w)) => {
            lemma_same_elements(v@, w@, |x: u64| (x as int, 0int));
        },
        (TensorData::Complex64(v), TensorData::Complex64(w)) => {
            lemma_same_elements(v@, w@, |x: (u32, u32)| (x.0 as int, x.1 as int));
        },
        (TensorData::Complex128(v), TensorData::Complex128(w)) => {
            lemma_same_elements(v@, w@, |x: (u64, u64)| (x.0 as int, x.1 as int));
        },
        (TensorData::Bool(v), TensorData::Bool(w)) => {
            lemma_same_elements(v@, w@, |x: bool| (if x { 1int } else { 0int }, 0int));
        },
        _ => {},
    }
}

proof fn lemma_same_elements<T>(v: Seq<T>, w: Seq<T>, seen: spec_fn(T) -> (int, int))
    requires
        v.map_values(seen) == w.map_values(seen),
        forall|x: T, y: T| #[trigger] seen(x) == #[trigger] seen(y) ==> x == y,
    ensures
        v == w,
{
    assert(v.len() == v.map_values(seen).len());
    assert(w.len() == w.map_values(seen).len());
    assert forall|i: int| 0 <= i < v.len() implies v[i] == w[i] by {
        assert(v.map_values(seen)[i] == seen(v[i]));
        assert(w.map_values(seen)[i] == seen(w[i]));
    }
    assert(v =~= w);
}

} // verus!
