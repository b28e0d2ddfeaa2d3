//! How vertex records lie in their buffers.

use vstd::prelude::*;

verus! {

/// The form of one vertex attribute.
#[derive(Clone, Copy, Debug, PartialEq, Eq, Structural)]
pub enum AttributeFormat {
    Float32x2,
    Float32x3,
    Float32x4,
    Uint32,
    Unorm8x4,
}

impl AttributeFormat {
    /// The bytes of one attribute.
    pub open spec fn bytes(self) -> int {
        match self {
            AttributeFormat::Float32x2 => 8,
            AttributeFormat::Float32x3 => 12,
            AttributeFormat::Float32x4 => 16,
            AttributeFormat::Uint32 => 4,
            AttributeFormat::Unorm8x4 => 4,
        }
    }
}

/// One attribute of a record.
#[derive(Clone, Copy, Debug, PartialEq, Eq, Structural)]
pub struct Attribute {
    pub format: AttributeFormat,
    pub offset: u64,
    pub location: u32,
}

/// Whether a buffer steps on with every vertex or with every instance.
#[derive(Clone, Copy, Debug, PartialEq, Eq, Structural)]
pub enum StepMode {
    Vertex,
    Instance,
}

/// The layout of one vertex buffer.
pub struct BufferLayout {
    pub stride: u64,
    pub step: StepMode,
    pub attributes: Vec<Attribute>,
}

/// The attributes that formats give when they follow one another without gaps,
/// at locations from `first` on.
pub open spec fn packed(formats: Seq<AttributeFormat>, first: int) -> Seq<Attribute> {
    Seq::new(
        formats.len(),
        |k: int|
            Attribute {
                format: formats[k],
                offset: total_bytes(formats.take(k)) as u64,
                location: (first + k) as u32,
            },
    )
}

/// The bytes of attributes that follow one another.
pub open spec fn total_bytes(formats: Seq<AttributeFormat>) -> int
    decreases formats.len(),
{
    if formats.len() == 0 {
        0
    } else {
        total_bytes(formats.drop_last()) + formats.last().bytes()
    }
}

impl BufferLayout {
    /// The record is made of exactly these attributes, without gaps.
    pub open spec fn holds(&self, step: StepMode, formats: Seq<AttributeFormat>, first: int) -> bool {
        &&& self.step == step
        &&& self.stride == total_bytes(formats)
        &&& self.attributes@ == packed(formats, first)
    }
}

/// A record of two attributes.
pub fn pair_layout(
    step: StepMode,
    a: AttributeFormat,
    a_bytes: u64,
    b: AttributeFormat,
    b_bytes: u64,
    first: u32,
) -> (layout: BufferLayout)
    requires
        a_bytes == a.bytes(),
        b_bytes == b.bytes(),
        first < u32::MAX,
    ensures
        layout.holds(step, seq![a, b], first as int),
{
    let mut attributes: Vec<Attribute> = Vec::new();
    attributes.push(Attribute { format: a, offset: 0, location: first });
    attributes.push(Attribute { format: b, offset: a_bytes, location: first + 1 });
    proof {
        let formats = seq![a, b];
        reveal_with_fuel(total_bytes, 3);
        assert(formats.take(0) =~= Seq::<AttributeFormat>::empty());
        assert(formats.take(1) =~= seq![a]);
        assert(formats.drop_last() =~= seq![a]);
        assert(seq![a].drop_last() =~= Seq::<AttributeFormat>::empty());
        assert(attributes@ =~= packed(formats, first as int));
    }
    BufferLayout { stride: a_bytes + b_bytes, step, attributes }
}

/// The attributes of a packed record neither overlap nor reach past its end.
pub proof fn law_packed_attributes_do_not_overlap(
    formats: Seq<AttributeFormat>,
    first: int,
    j: int,
    k: int,
)
    requires
        0 <= j < formats.len(),
        j < k <= formats.len(),
    ensures
        total_bytes(formats.take(j)) + formats[j].bytes() <= total_bytes(formats.take(k)),
        0 <= total_bytes(formats.take(j)),
        total_bytes(formats.take(k)) <= total_bytes(formats),
    decreases formats.len(),
{
    lemma_total_bytes_rises(formats, 0, j);
    lemma_total_bytes_rises(formats, j + 1, k);
    lemma_total_bytes_rises(formats, k, formats.len() as int);
    assert(formats.take(j + 1).drop_last() =~= formats.take(j));
    assert(formats.take(formats.len() as int) =~= formats);
    assert(formats.take(0) =~= Seq::<AttributeFormat>::empty());
}

proof fn lemma_total_bytes_rises(formats: Seq<AttributeFormat>, j: int, k: int)
    requires
        0 <= j <= k <= formats.len(),
    ensures
        total_bytes(formats.take(j)) <= total_bytes(formats.take(k)),
    decreases k,
{
    if j < k {
        lemma_total_bytes_rises(formats, j, k - 1);
        assert(formats.take(k).drop_last() =~= formats.take(k - 1));
    }
}

/// Two attributes in a buffer: the first at its start, the second right behind it,
/// at neighbouring locations, and as long as both.
pub proof fn law_pairs_are_packed(a: AttributeFormat, b: AttributeFormat, first: int)
    requires
        0 <= first < u32::MAX,
    ensures
        ({
            let both = packed(seq![a, b], first);
            &&& both.len() == 2
            &&& both[0] == (Attribute { format: a, offset: 0, location: first as u32 })
            &&& both[1].format == b
            &&& both[1].offset == a.bytes()
            &&& both[1].location == first + 1
            &&& total_bytes(seq![a, b]) == a.bytes() + b.bytes()
        }),
{
    let pair = seq![a, b];
    assert(pair.take(0) =~= Seq::<AttributeFormat>::empty());
    assert(pair.take(1) =~= seq![a]);
    assert(pair.drop_last() =~= seq![a]);
    assert(seq![a].drop_last() =~= Seq::<AttributeFormat>::empty());
    reveal_with_fuel(total_bytes, 3);
}

/// A number takes four bytes, and four channels of a byte take as many.
pub proof fn law_formats_have_their_bytes()
    ensures
        AttributeFormat::Float32x2.bytes() == 2 * 4,
        AttributeFormat::Float32x3.bytes() == 3 * 4,
        AttributeFormat::Float32x4.bytes() == 4 * 4,
        AttributeFormat::Uint32.bytes() == 4,
        AttributeFormat::Unorm8x4.bytes() == 4 * 1,
{
}

} // verus!
