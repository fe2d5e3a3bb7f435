//! The shapes of the tile types: which areas each has and which edge
//! segments each area owns.
use vstd::prelude::*;
use crate::segments::EdgeNumber;
use crate::tiles::{
    area_spec, areas_view, create_area, owns, segments_partitioned, AreaType, TileArea,
    TileAreaView, TileType,
};

verus! {

/// The areas of each tile type in its unrotated orientation, or `None` for
/// a type whose shape has not been defined.
pub open spec fn tile_shape_spec(tile_type: TileType) -> Option<Seq<TileAreaView>> {
    match tile_type {
        TileType::RFRF_02 => Some(
            seq![
                area_spec(AreaType::Farm, seq![0usize, 8, 9, 10, 11]),
                area_spec(AreaType::Road, seq![1usize, 7]),
                area_spec(AreaType::Farm, seq![2usize, 3, 4, 5, 6]),
            ],
        ),
        TileType::FRRF_12 => Some(
            seq![
                area_spec(AreaType::Farm, seq![0usize, 1, 2, 3, 8, 9, 10, 11]),
                area_spec(AreaType::Road, seq![4usize, 7]),
                area_spec(AreaType::Farm, seq![5usize, 6]),
            ],
        ),
        TileType::RRRF => Some(
            seq![
                area_spec(AreaType::Farm, seq![0usize, 8, 9, 10, 11]),
                area_spec(AreaType::EndRoad, seq![1usize]),
                area_spec(AreaType::Farm, seq![2usize, 3]),
                area_spec(AreaType::EndRoad, seq![4usize]),
                area_spec(AreaType::Farm, seq![5usize, 6]),
                area_spec(AreaType::EndRoad, seq![7usize]),
                area_spec(AreaType::RoadStopMarker, Seq::empty()),
            ],
        ),
        TileType::RRRR => Some(
            seq![
                area_spec(AreaType::Farm, seq![0usize, 11]),
                area_spec(AreaType::EndRoad, seq![1usize]),
                area_spec(AreaType::Farm, seq![2usize, 3]),
                area_spec(AreaType::EndRoad, seq![4usize]),
                area_spec(AreaType::Farm, seq![5usize, 6]),
                area_spec(AreaType::EndRoad, seq![7usize]),
                area_spec(AreaType::Farm, seq![8usize, 9]),
                area_spec(AreaType::EndRoad, seq![10usize]),
                area_spec(AreaType::RoadStopMarker, Seq::empty()),
            ],
        ),
        TileType::FFFF_C => Some(
            seq![
                area_spec(AreaType::Farm, seq![0usize, 1, 2, 3, 4, 5, 6, 7, 8, 9, 10, 11]),
                area_spec(AreaType::Cloister, Seq::empty()),
            ],
        ),
        TileType::FRFF_C => Some(
            seq![
                area_spec(AreaType::Farm, seq![0usize, 1, 2, 3, 5, 6, 7, 8, 9, 10, 11]),
                area_spec(AreaType::EndRoad, seq![4usize]),
                area_spec(AreaType::Cloister, Seq::empty()),
            ],
        ),
        TileType::FFFT => Some(
            seq![
                area_spec(AreaType::Farm, seq![0usize, 1, 2, 3, 4, 5, 6, 7, 8]),
                area_spec(AreaType::Town, seq![9usize, 10, 11]),
            ],
        ),
        TileType::RFRT_02 => Some(
            seq![
                area_spec(AreaType::Farm, seq![0usize, 8]),
                area_spec(AreaType::Road, seq![1usize, 7]),
                area_spec(AreaType::Farm, seq![2usize, 3, 4, 5, 6]),
                area_spec(AreaType::Town, seq![9usize, 10, 11]),
            ],
        ),
        TileType::RRFT_01 => Some(
            seq![
                area_spec(AreaType::Farm, seq![0usize, 5, 6, 7, 8]),
                area_spec(AreaType::Road, seq![1usize, 4]),
                area_spec(AreaType::Farm, seq![2usize, 3]),
                area_spec(AreaType::Town, seq![9usize, 10, 11]),
            ],
        ),
        TileType::FRRT_12 => Some(
            seq![
                area_spec(AreaType::Farm, seq![0usize, 1, 2, 3, 8]),
                area_spec(AreaType::Road, seq![4usize, 7]),
                area_spec(AreaType::Farm, seq![5usize, 6]),
                area_spec(AreaType::Town, seq![9usize, 10, 11]),
            ],
        ),
        TileType::RRRT => Some(
            seq![
                area_spec(AreaType::Farm, seq![0usize, 8]),
                area_spec(AreaType::EndRoad, seq![1usize]),
                area_spec(AreaType::Farm, seq![2usize, 3]),
                area_spec(AreaType::EndRoad, seq![4usize]),
                area_spec(AreaType::Farm, seq![5usize, 6]),
                area_spec(AreaType::EndRoad, seq![7usize]),
                area_spec(AreaType::Town, seq![9usize, 10, 11]),
                area_spec(AreaType::RoadStopMarker, Seq::empty()),
            ],
        ),
        TileType::FTFT => Some(
            seq![
                area_spec(AreaType::Farm, seq![0usize, 1, 2, 6, 7, 8]),
                area_spec(AreaType::Town, seq![3usize, 4, 5]),
                area_spec(AreaType::Town, seq![9usize, 10, 11]),
            ],
        ),
        TileType::TFFT => Some(
            seq![
                area_spec(AreaType::Town, seq![0usize, 1, 2]),
                area_spec(AreaType::Farm, seq![3usize, 4, 5, 6, 7, 8]),
                area_spec(AreaType::Town, seq![9usize, 10, 11]),
            ],
        ),
        TileType::TFTF_02 => Some(
            seq![
                area_spec(AreaType::Town, seq![0usize, 1, 2, 6, 7, 8]),
                area_spec(AreaType::Farm, seq![3usize, 4, 5]),
                area_spec(AreaType::Farm, seq![9usize, 10, 11]),
            ],
        ),
        TileType::PFPF_02 => Some(
            seq![
                area_spec(AreaType::PennantTown, seq![0usize, 1, 2, 6, 7, 8]),
                area_spec(AreaType::Farm, seq![3usize, 4, 5]),
                area_spec(AreaType::Farm, seq![9usize, 10, 11]),
            ],
        ),
        TileType::TFFT_03 => Some(
            seq![
                area_spec(AreaType::Town, seq![0usize, 1, 2, 9, 10, 11]),
                area_spec(AreaType::Farm, seq![3usize, 4, 5, 6, 7, 8]),
            ],
        ),
        TileType::PFFP_03 => Some(
            seq![
                area_spec(AreaType::PennantTown, seq![0usize, 1, 2, 9, 10, 11]),
                area_spec(AreaType::Farm, seq![3usize, 4, 5, 6, 7, 8]),
            ],
        ),
        TileType::TRRT_03_12 => Some(
            seq![
                area_spec(AreaType::Town, seq![0usize, 1, 2, 9, 10, 11]),
                area_spec(AreaType::Farm, seq![3usize, 8]),
                area_spec(AreaType::Road, seq![4usize, 7]),
                area_spec(AreaType::Farm, seq![5usize, 6]),
            ],
        ),
        TileType::PRRP_03_12 => Some(
            seq![
                area_spec(AreaType::PennantTown, seq![0usize, 1, 2, 9, 10, 11]),
                area_spec(AreaType::Farm, seq![3usize, 8]),
                area_spec(AreaType::Road, seq![4usize, 7]),
                area_spec(AreaType::Farm, seq![5usize, 6]),
            ],
        ),
        TileType::TFTT_013 => Some(
            seq![
                area_spec(AreaType::Town, seq![0usize, 1, 2, 6, 7, 8, 9, 10, 11]),
                area_spec(AreaType::Farm, seq![3usize, 4, 5]),
            ],
        ),
        TileType::PFPP_013 => Some(
            seq![
                area_spec(AreaType::PennantTown, seq![0usize, 1, 2, 6, 7, 8, 9, 10, 11]),
                area_spec(AreaType::Farm, seq![3usize, 4, 5]),
            ],
        ),
        TileType::TRTT_013 => Some(
            seq![
                area_spec(AreaType::Town, seq![0usize, 1, 2, 6, 7, 8, 9, 10, 11]),
                area_spec(AreaType::Farm, seq![3usize]),
                area_spec(AreaType::EndRoad, seq![4usize]),
                area_spec(AreaType::Farm, seq![5usize]),
            ],
        ),
        TileType::PRPP_013 => Some(
            seq![
                area_spec(AreaType::PennantTown, seq![0usize, 1, 2, 6, 7, 8, 9, 10, 11]),
                area_spec(AreaType::Farm, seq![3usize]),
                area_spec(AreaType::EndRoad, seq![4usize]),
                area_spec(AreaType::Farm, seq![5usize]),
            ],
        ),
        TileType::PPPP_0123 => Some(
            seq![
                area_spec(AreaType::PennantTown, seq![0usize, 1, 2, 3, 4, 5, 6, 7, 8, 9, 10, 11]),
            ],
        ),
        _ => None,
    }
}

/// The list that holds the one segment `s`.
fn one_segment(s: EdgeNumber) -> (r: Vec<EdgeNumber>)
    ensures
        r@ == seq![s],
{
    let mut r: Vec<EdgeNumber> = Vec::new();
    r.push(s);
    r
}

fn shape_rfrf_02() -> (r: Vec<TileArea>)
    ensures
        areas_view(r@) == tile_shape_spec(TileType::RFRF_02).unwrap(),
{
    let r = vec![
        create_area(AreaType::Farm, vec![0, 8, 9, 10, 11]),
        create_area(AreaType::Road, vec![1, 7]),
        create_area(AreaType::Farm, vec![2, 3, 4, 5, 6]),
    ];
    r
}

fn shape_frrf_12() -> (r: Vec<TileArea>)
    ensures
        areas_view(r@) == tile_shape_spec(TileType::FRRF_12).unwrap(),
{
    let r = vec![
        create_area(AreaType::Farm, vec![0, 1, 2, 3, 8, 9, 10, 11]),
        create_area(AreaType::Road, vec![4, 7]),
        create_area(AreaType::Farm, vec![5, 6]),
    ];
    r
}

fn shape_rrrf() -> (r: Vec<TileArea>)
    ensures
        areas_view(r@) == tile_shape_spec(TileType::RRRF).unwrap(),
{
    let r = vec![
        create_area(AreaType::Farm, vec![0, 8, 9, 10, 11]),
        create_area(AreaType::EndRoad, one_segment(1)),
        create_area(AreaType::Farm, vec![2, 3]),
        create_area(AreaType::EndRoad, one_segment(4)),
        create_area(AreaType::Farm, vec![5, 6]),
        create_area(AreaType::EndRoad, one_segment(7)),
        create_area(AreaType::RoadStopMarker, Vec::new()),
    ];
    r
}

fn shape_rrrr() -> (r: Vec<TileArea>)
    ensures
        areas_view(r@) == tile_shape_spec(TileType::RRRR).unwrap(),
{
    let r = vec![
        create_area(AreaType::Farm, vec![0, 11]),
        create_area(AreaType::EndRoad, one_segment(1)),
        create_area(AreaType::Farm, vec![2, 3]),
        create_area(AreaType::EndRoad, one_segment(4)),
        create_area(AreaType::Farm, vec![5, 6]),
        create_area(AreaType::EndRoad, one_segment(7)),
        create_area(AreaType::Farm, vec![8, 9]),
        create_area(AreaType::EndRoad, one_segment(10)),
        create_area(AreaType::RoadStopMarker, Vec::new()),
    ];
    r
}

fn shape_ffff_c() -> (r: Vec<TileArea>)
    ensures
        areas_view(r@) == tile_shape_spec(TileType::FFFF_C).unwrap(),
{
    let r = vec![
        create_area(AreaType::Farm, vec![0, 1, 2, 3, 4, 5, 6, 7, 8, 9, 10, 11]),
        create_area(AreaType::Cloister, Vec::new()),
    ];
    r
}

fn shape_frff_c() -> (r: Vec<TileArea>)
    ensures
        areas_view(r@) == tile_shape_spec(TileType::FRFF_C).unwrap(),
{
    let r = vec![
        create_area(AreaType::Farm, vec![0, 1, 2, 3, 5, 6, 7, 8, 9, 10, 11]),
        create_area(AreaType::EndRoad, one_segment(4)),
        create_area(AreaType::Cloister, Vec::new()),
    ];
    r
}

fn shape_ffft() -> (r: Vec<TileArea>)
    ensures
        areas_view(r@) == tile_shape_spec(TileType::FFFT).unwrap(),
{
    let r = vec![
        create_area(AreaType::Farm, vec![0, 1, 2, 3, 4, 5, 6, 7, 8]),
        create_area(AreaType::Town, vec![9, 10, 11]),
    ];
    r
}

fn shape_rfrt_02() -> (r: Vec<TileArea>)
    ensures
        areas_view(r@) == tile_shape_spec(TileType::RFRT_02).unwrap(),
{
    let r = vec![
        create_area(AreaType::Farm, vec![0, 8]),
        create_area(AreaType::Road, vec![1, 7]),
        create_area(AreaType::Farm, vec![2, 3, 4, 5, 6]),
        create_area(AreaType::Town, vec![9, 10, 11]),
    ];
    r
}

fn shape_rrft_01() -> (r: Vec<TileArea>)
    ensures
        areas_view(r@) == tile_shape_spec(TileType::RRFT_01).unwrap(),
{
    let r = vec![
        create_area(AreaType::Farm, vec![0, 5, 6, 7, 8]),
        create_area(AreaType::Road, vec![1, 4]),
        create_area(AreaType::Farm, vec![2, 3]),
        create_area(AreaType::Town, vec![9, 10, 11]),
    ];
    r
}

fn shape_frrt_12() -> (r: Vec<TileArea>)
    ensures
        areas_view(r@) == tile_shape_spec(TileType::FRRT_12).unwrap(),
{
    let r = vec![
        create_area(AreaType::Farm, vec![0, 1, 2, 3, 8]),
        create_area(AreaType::Road, vec![4, 7]),
        create_area(AreaType::Farm, vec![5, 6]),
        create_area(AreaType::Town, vec![9, 10, 11]),
    ];
    r
}

fn shape_rrrt() -> (r: Vec<TileArea>)
    ensures
        areas_view(r@) == tile_shape_spec(TileType::RRRT).unwrap(),
{
    let r = vec![
        create_area(AreaType::Farm, vec![0, 8]),
        create_area(AreaType::EndRoad, one_segment(1)),
        create_area(AreaType::Farm, vec![2, 3]),
        create_area(AreaType::EndRoad, one_segment(4)),
        create_area(AreaType::Farm, vec![5, 6]),
        create_area(AreaType::EndRoad, one_segment(7)),
        create_area(AreaType::Town, vec![9, 10, 11]),
        create_area(AreaType::RoadStopMarker, Vec::new()),
    ];
    r
}

fn shape_ftft() -> (r: Vec<TileArea>)
    ensures
        areas_view(r@) == tile_shape_spec(TileType::FTFT).unwrap(),
{
    let r = vec![
        create_area(AreaType::Farm, vec![0, 1, 2, 6, 7, 8]),
        create_area(AreaType::Town, vec![3, 4, 5]),
        create_area(AreaType::Town, vec![9, 10, 11]),
    ];
    r
}

fn shape_tfft() -> (r: Vec<TileArea>)
    ensures
        areas_view(r@) == tile_shape_spec(TileType::TFFT).unwrap(),
{
    let r = vec![
        create_area(AreaType::Town, vec![0, 1, 2]),
        create_area(AreaType::Farm, vec![3, 4, 5, 6, 7, 8]),
        create_area(AreaType::Town, vec![9, 10, 11]),
    ];
    r
}

fn shape_tftf_02() -> (r: Vec<TileArea>)
    ensures
        areas_view(r@) == tile_shape_spec(TileType::TFTF_02).unwrap(),
{
    let r = vec![
        create_area(AreaType::Town, vec![0, 1, 2, 6, 7, 8]),
        create_area(AreaType::Farm, vec![3, 4, 5]),
        create_area(AreaType::Farm, vec![9, 10, 11]),
    ];
    r
}

fn shape_pfpf_02() -> (r: Vec<TileArea>)
    ensures
        areas_view(r@) == tile_shape_spec(TileType::PFPF_02).unwrap(),
{
    let r = vec![
        create_area(AreaType::PennantTown, vec![0, 1, 2, 6, 7, 8]),
        create_area(AreaType::Farm, vec![3, 4, 5]),
        create_area(AreaType::Farm, vec![9, 10, 11]),
    ];
    r
}

fn shape_tfft_03() -> (r: Vec<TileArea>)
    ensures
        areas_view(r@) == tile_shape_spec(TileType::TFFT_03).unwrap(),
{
    let r = vec![
        create_area(AreaType::Town, vec![0, 1, 2, 9, 10, 11]),
        create_area(AreaType::Farm, vec![3, 4, 5, 6, 7, 8]),
    ];
    r
}

fn shape_pffp_03() -> (r: Vec<TileArea>)
    ensures
        areas_view(r@) == tile_shape_spec(TileType::PFFP_03).unwrap(),
{
    let r = vec![
        create_area(AreaType::PennantTown, vec![0, 1, 2, 9, 10, 11]),
        create_area(AreaType::Farm, vec![3, 4, 5, 6, 7, 8]),
    ];
    r
}

fn shape_trrt_03_12() -> (r: Vec<TileArea>)
    ensures
        areas_view(r@) == tile_shape_spec(TileType::TRRT_03_12).unwrap(),
{
    let r = vec![
        create_area(AreaType::Town, vec![0, 1, 2, 9, 10, 11]),
        create_area(AreaType::Farm, vec![3, 8]),
        create_area(AreaType::Road, vec![4, 7]),
        create_area(AreaType::Farm, vec![5, 6]),
    ];
    r
}

fn shape_prrp_03_12() -> (r: Vec<TileArea>)
    ensures
        areas_view(r@) == tile_shape_spec(TileType::PRRP_03_12).unwrap(),
{
    let r = vec![
        create_area(AreaType::PennantTown, vec![0, 1, 2, 9, 10, 11]),
        create_area(AreaType::Farm, vec![3, 8]),
        create_area(AreaType::Road, vec![4, 7]),
        create_area(AreaType::Farm, vec![5, 6]),
    ];
    r
}

fn shape_tftt_013() -> (r: Vec<TileArea>)
    ensures
        areas_view(r@) == tile_shape_spec(TileType::TFTT_013).unwrap(),
{
    let r = vec![
        create_area(AreaType::Town, vec![0, 1, 2, 6, 7, 8, 9, 10, 11]),
        create_area(AreaType::Farm, vec![3, 4, 5]),
    ];
    r
}

fn shape_pfpp_013() -> (r: Vec<TileArea>)
    ensures
        areas_view(r@) == tile_shape_spec(TileType::PFPP_013).unwrap(),
{
    let r = vec![
        create_area(AreaType::PennantTown, vec![0, 1, 2, 6, 7, 8, 9, 10, 11]),
        create_area(AreaType::Farm, vec![3, 4, 5]),
    ];
    r
}

fn shape_trtt_013() -> (r: Vec<TileArea>)
    ensures
        areas_view(r@) == tile_shape_spec(TileType::TRTT_013).unwrap(),
{
    let r = vec![
        create_area(AreaType::Town, vec![0, 1, 2, 6, 7, 8, 9, 10, 11]),
        create_area(AreaType::Farm, one_segment(3)),
        create_area(AreaType::EndRoad, one_segment(4)),
        create_area(AreaType::Farm, one_segment(5)),
    ];
    r
}

fn shape_prpp_013() -> (r: Vec<TileArea>)
    ensures
        areas_view(r@) == tile_shape_spec(TileType::PRPP_013).unwrap(),
{
    let r = vec![
        create_area(AreaType::PennantTown, vec![0, 1, 2, 6, 7, 8, 9, 10, 11]),
        create_area(AreaType::Farm, one_segment(3)),
        create_area(AreaType::EndRoad, one_segment(4)),
        create_area(AreaType::Farm, one_segment(5)),
    ];
    r
}

fn shape_pppp_0123() -> (r: Vec<TileArea>)
    ensures
        areas_view(r@) == tile_shape_spec(TileType::PPPP_0123).unwrap(),
{
    let r = vec![
        create_area(AreaType::PennantTown, vec![0, 1, 2, 3, 4, 5, 6, 7, 8, 9, 10, 11]),
    ];
    r
}

/// The areas of a tile of the given type, freshly made, or `None` for a
/// type whose shape has not been defined.
pub fn tile_shape(tile_type: TileType) -> (r: Option<Vec<TileArea>>)
    ensures
        match tile_shape_spec(tile_type) {
            Some(shape) => r.is_some() && areas_view(r.unwrap()@) == shape,
            None => r.is_none(),
        },
{
    match tile_type {
        TileType::RFRF_02 => Some(shape_rfrf_02()),
        TileType::FRRF_12 => Some(shape_frrf_12()),
        TileType::RRRF => Some(shape_rrrf()),
        TileType::RRRR => Some(shape_rrrr()),
        TileType::FFFF_C => Some(shape_ffff_c()),
        TileType::FRFF_C => Some(shape_frff_c()),
        TileType::FFFT => Some(shape_ffft()),
        TileType::RFRT_02 => Some(shape_rfrt_02()),
        TileType::RRFT_01 => Some(shape_rrft_01()),
        TileType::FRRT_12 => Some(shape_frrt_12()),
        TileType::RRRT => Some(shape_rrrt()),
        TileType::FTFT => Some(shape_ftft()),
        TileType::TFFT => Some(shape_tfft()),
        TileType::TFTF_02 => Some(shape_tftf_02()),
        TileType::PFPF_02 => Some(shape_pfpf_02()),
        TileType::TFFT_03 => Some(shape_tfft_03()),
        TileType::PFFP_03 => Some(shape_pffp_03()),
        TileType::TRRT_03_12 => Some(shape_trrt_03_12()),
        TileType::PRRP_03_12 => Some(shape_prrp_03_12()),
        TileType::TFTT_013 => Some(shape_tftt_013()),
        TileType::PFPP_013 => Some(shape_pfpp_013()),
        TileType::TRTT_013 => Some(shape_trtt_013()),
        TileType::PRPP_013 => Some(shape_prpp_013()),
        TileType::PPPP_0123 => Some(shape_pppp_0123()),
        _ => None,
    }
}

proof fn lemma_partitioned_rfrf_02()
    ensures
        segments_partitioned(tile_shape_spec(TileType::RFRF_02).unwrap()),
{
    let a = tile_shape_spec(TileType::RFRF_02).unwrap();
    assert(owns(a, 0, 0, 0));
    assert(owns(a, 1, 0, 1));
    assert(owns(a, 2, 0, 2));
    assert(owns(a, 2, 1, 3));
    assert(owns(a, 2, 2, 4));
    assert(owns(a, 2, 3, 5));
    assert(owns(a, 2, 4, 6));
    assert(owns(a, 1, 1, 7));
    assert(owns(a, 0, 1, 8));
    assert(owns(a, 0, 2, 9));
    assert(owns(a, 0, 3, 10));
    assert(owns(a, 0, 4, 11));
}

proof fn lemma_partitioned_frrf_12()
    ensures
        segments_partitioned(tile_shape_spec(TileType::FRRF_12).unwrap()),
{
    let a = tile_shape_spec(TileType::FRRF_12).unwrap();
    assert(owns(a, 0, 0, 0));
    assert(owns(a, 0, 1, 1));
    assert(owns(a, 0, 2, 2));
    assert(owns(a, 0, 3, 3));
    assert(owns(a, 1, 0, 4));
    assert(owns(a, 2, 0, 5));
    assert(owns(a, 2, 1, 6));
    assert(owns(a, 1, 1, 7));
    assert(owns(a, 0, 4, 8));
    assert(owns(a, 0, 5, 9));
    assert(owns(a, 0, 6, 10));
    assert(owns(a, 0, 7, 11));
}

proof fn lemma_partitioned_rrrf()
    ensures
        segments_partitioned(tile_shape_spec(TileType::RRRF).unwrap()),
{
    let a = tile_shape_spec(TileType::RRRF).unwrap();
    assert(owns(a, 0, 0, 0));
    assert(owns(a, 1, 0, 1));
    assert(owns(a, 2, 0, 2));
    assert(owns(a, 2, 1, 3));
    assert(owns(a, 3, 0, 4));
    assert(owns(a, 4, 0, 5));
    assert(owns(a, 4, 1, 6));
    assert(owns(a, 5, 0, 7));
    assert(owns(a, 0, 1, 8));
    assert(owns(a, 0, 2, 9));
    assert(owns(a, 0, 3, 10));
    assert(owns(a, 0, 4, 11));
}

proof fn lemma_partitioned_rrrr()
    ensures
        segments_partitioned(tile_shape_spec(TileType::RRRR).unwrap()),
{
    let a = tile_shape_spec(TileType::RRRR).unwrap();
    assert(owns(a, 0, 0, 0));
    assert(owns(a, 1, 0, 1));
    assert(owns(a, 2, 0, 2));
    assert(owns(a, 2, 1, 3));
    assert(owns(a, 3, 0, 4));
    assert(owns(a, 4, 0, 5));
    assert(owns(a, 4, 1, 6));
    assert(owns(a, 5, 0, 7));
    assert(owns(a, 6, 0, 8));
    assert(owns(a, 6, 1, 9));
    assert(owns(a, 7, 0, 10));
    assert(owns(a, 0, 1, 11));
}

proof fn lemma_partitioned_ffff_c()
    ensures
        segments_partitioned(tile_shape_spec(TileType::FFFF_C).unwrap()),
{
    let a = tile_shape_spec(TileType::FFFF_C).unwrap();
    assert(owns(a, 0, 0, 0));
    assert(owns(a, 0, 1, 1));
    assert(owns(a, 0, 2, 2));
    assert(owns(a, 0, 3, 3));
    assert(owns(a, 0, 4, 4));
    assert(owns(a, 0, 5, 5));
    assert(owns(a, 0, 6, 6));
    assert(owns(a, 0, 7, 7));
    assert(owns(a, 0, 8, 8));
    assert(owns(a, 0, 9, 9));
    assert(owns(a, 0, 10, 10));
    assert(owns(a, 0, 11, 11));
}

proof fn lemma_partitioned_frff_c()
    ensures
        segments_partitioned(tile_shape_spec(TileType::FRFF_C).unwrap()),
{
    let a = tile_shape_spec(TileType::FRFF_C).unwrap();
    assert(owns(a, 0, 0, 0));
    assert(owns(a, 0, 1, 1));
    assert(owns(a, 0, 2, 2));
    assert(owns(a, 0, 3, 3));
    assert(owns(a, 1, 0, 4));
    assert(owns(a, 0, 4, 5));
    assert(owns(a, 0, 5, 6));
    assert(owns(a, 0, 6, 7));
    assert(owns(a, 0, 7, 8));
    assert(owns(a, 0, 8, 9));
    assert(owns(a, 0, 9, 10));
    assert(owns(a, 0, 10, 11));
}

proof fn lemma_partitioned_ffft()
    ensures
        segments_partitioned(tile_shape_spec(TileType::FFFT).unwrap()),
{
    let a = tile_shape_spec(TileType::FFFT).unwrap();
    assert(owns(a, 0, 0, 0));
    assert(owns(a, 0, 1, 1));
    assert(owns(a, 0, 2, 2));
    assert(owns(a, 0, 3, 3));
    assert(owns(a, 0, 4, 4));
    assert(owns(a, 0, 5, 5));
    assert(owns(a, 0, 6, 6));
    assert(owns(a, 0, 7, 7));
    assert(owns(a, 0, 8, 8));
    assert(owns(a, 1, 0, 9));
    assert(owns(a, 1, 1, 10));
    assert(owns(a, 1, 2, 11));
}

proof fn lemma_partitioned_rfrt_02()
    ensures
        segments_partitioned(tile_shape_spec(TileType::RFRT_02).unwrap()),
{
    let a = tile_shape_spec(TileType::RFRT_02).unwrap();
    assert(owns(a, 0, 0, 0));
    assert(owns(a, 1, 0, 1));
    assert(owns(a, 2, 0, 2));
    assert(owns(a, 2, 1, 3));
    assert(owns(a, 2, 2, 4));
    assert(owns(a, 2, 3, 5));
    assert(owns(a, 2, 4, 6));
    assert(owns(a, 1, 1, 7));
    assert(owns(a, 0, 1, 8));
    assert(owns(a, 3, 0, 9));
    assert(owns(a, 3, 1, 10));
    assert(owns(a, 3, 2, 11));
}

proof fn lemma_partitioned_rrft_01()
    ensures
        segments_partitioned(tile_shape_spec(TileType::RRFT_01).unwrap()),
{
    let a = tile_shape_spec(TileType::RRFT_01).unwrap();
    assert(owns(a, 0, 0, 0));
    assert(owns(a, 1, 0, 1));
    assert(owns(a, 2, 0, 2));
    assert(owns(a, 2, 1, 3));
    assert(owns(a, 1, 1, 4));
    assert(owns(a, 0, 1, 5));
    assert(owns(a, 0, 2, 6));
    assert(owns(a, 0, 3, 7));
    assert(owns(a, 0, 4, 8));
    assert(owns(a, 3, 0, 9));
    assert(owns(a, 3, 1, 10));
    assert(owns(a, 3, 2, 11));
}

proof fn lemma_partitioned_frrt_12()
    ensures
        segments_partitioned(tile_shape_spec(TileType::FRRT_12).unwrap()),
{
    let a = tile_shape_spec(TileType::FRRT_12).unwrap();
    assert(owns(a, 0, 0, 0));
    assert(owns(a, 0, 1, 1));
    assert(owns(a, 0, 2, 2));
    assert(owns(a, 0, 3, 3));
    assert(owns(a, 1, 0, 4));
    assert(owns(a, 2, 0, 5));
    assert(owns(a, 2, 1, 6));
    assert(owns(a, 1, 1, 7));
    assert(owns(a, 0, 4, 8));
    assert(owns(a, 3, 0, 9));
    assert(owns(a, 3, 1, 10));
    assert(owns(a, 3, 2, 11));
}

proof fn lemma_partitioned_rrrt()
    ensures
        segments_partitioned(tile_shape_spec(TileType::RRRT).unwrap()),
{
    let a = tile_shape_spec(TileType::RRRT).unwrap();
    assert(owns(a, 0, 0, 0));
    assert(owns(a, 1, 0, 1));
    assert(owns(a, 2, 0, 2));
    assert(owns(a, 2, 1, 3));
    assert(owns(a, 3, 0, 4));
    assert(owns(a, 4, 0, 5));
    assert(owns(a, 4, 1, 6));
    assert(owns(a, 5, 0, 7));
    assert(owns(a, 0, 1, 8));
    assert(owns(a, 6, 0, 9));
    assert(owns(a, 6, 1, 10));
    assert(owns(a, 6, 2, 11));
}

proof fn lemma_partitioned_ftft()
    ensures
        segments_partitioned(tile_shape_spec(TileType::FTFT).unwrap()),
{
    let a = tile_shape_spec(TileType::FTFT).unwrap();
    assert(owns(a, 0, 0, 0));
    assert(owns(a, 0, 1, 1));
    assert(owns(a, 0, 2, 2));
    assert(owns(a, 1, 0, 3));
    assert(owns(a, 1, 1, 4));
    assert(owns(a, 1, 2, 5));
    assert(owns(a, 0, 3, 6));
    assert(owns(a, 0, 4, 7));
    assert(owns(a, 0, 5, 8));
    assert(owns(a, 2, 0, 9));
    assert(owns(a, 2, 1, 10));
    assert(owns(a, 2, 2, 11));
}

proof fn lemma_partitioned_tfft()
    ensures
        segments_partitioned(tile_shape_spec(TileType::TFFT).unwrap()),
{
    let a = tile_shape_spec(TileType::TFFT).unwrap();
    assert(owns(a, 0, 0, 0));
    assert(owns(a, 0, 1, 1));
    assert(owns(a, 0, 2, 2));
    assert(owns(a, 1, 0, 3));
    assert(owns(a, 1, 1, 4));
    assert(owns(a, 1, 2, 5));
    assert(owns(a, 1, 3, 6));
    assert(owns(a, 1, 4, 7));
    assert(owns(a, 1, 5, 8));
    assert(owns(a, 2, 0, 9));
    assert(owns(a, 2, 1, 10));
    assert(owns(a, 2, 2, 11));
}

proof fn lemma_partitioned_tftf_02()
    ensures
        segments_partitioned(tile_shape_spec(TileType::TFTF_02).unwrap()),
{
    let a = tile_shape_spec(TileType::TFTF_02).unwrap();
    assert(owns(a, 0, 0, 0));
    assert(owns(a, 0, 1, 1));
    assert(owns(a, 0, 2, 2));
    assert(owns(a, 1, 0, 3));
    assert(owns(a, 1, 1, 4));
    assert(owns(a, 1, 2, 5));
    assert(owns(a, 0, 3, 6));
    assert(owns(a, 0, 4, 7));
    assert(owns(a, 0, 5, 8));
    assert(owns(a, 2, 0, 9));
    assert(owns(a, 2, 1, 10));
    assert(owns(a, 2, 2, 11));
}

proof fn lemma_partitioned_pfpf_02()
    ensures
        segments_partitioned(tile_shape_spec(TileType::PFPF_02).unwrap()),
{
    let a = tile_shape_spec(TileType::PFPF_02).unwrap();
    assert(owns(a, 0, 0, 0));
    assert(owns(a, 0, 1, 1));
    assert(owns(a, 0, 2, 2));
    assert(owns(a, 1, 0, 3));
    assert(owns(a, 1, 1, 4));
    assert(owns(a, 1, 2, 5));
    assert(owns(a, 0, 3, 6));
    assert(owns(a, 0, 4, 7));
    assert(owns(a, 0, 5, 8));
    assert(owns(a, 2, 0, 9));
    assert(owns(a, 2, 1, 10));
    assert(owns(a, 2, 2, 11));
}

proof fn lemma_partitioned_tfft_03()
    ensures
        segments_partitioned(tile_shape_spec(TileType::TFFT_03).unwrap()),
{
    let a = tile_shape_spec(TileType::TFFT_03).unwrap();
    assert(owns(a, 0, 0, 0));
    assert(owns(a, 0, 1, 1));
    assert(owns(a, 0, 2, 2));
    assert(owns(a, 1, 0, 3));
    assert(owns(a, 1, 1, 4));
    assert(owns(a, 1, 2, 5));
    assert(owns(a, 1, 3, 6));
    assert(owns(a, 1, 4, 7));
    assert(owns(a, 1, 5, 8));
    assert(owns(a, 0, 3, 9));
    assert(owns(a, 0, 4, 10));
    assert(owns(a, 0, 5, 11));
}

proof fn lemma_partitioned_pffp_03()
    ensures
        segments_partitioned(tile_shape_spec(TileType::PFFP_03).unwrap()),
{
    let a = tile_shape_spec(TileType::PFFP_03).unwrap();
    assert(owns(a, 0, 0, 0));
    assert(owns(a, 0, 1, 1));
    assert(owns(a, 0, 2, 2));
    assert(owns(a, 1, 0, 3));
    assert(owns(a, 1, 1, 4));
    assert(owns(a, 1, 2, 5));
    assert(owns(a, 1, 3, 6));
    assert(owns(a, 1, 4, 7));
    assert(owns(a, 1, 5, 8));
    assert(owns(a, 0, 3, 9));
    assert(owns(a, 0, 4, 10));
    assert(owns(a, 0, 5, 11));
}

proof fn lemma_partitioned_trrt_03_12()
    ensures
        segments_partitioned(tile_shape_spec(TileType::TRRT_03_12).unwrap()),
{
    let a = tile_shape_spec(TileType::TRRT_03_12).unwrap();
    assert(owns(a, 0, 0, 0));
    assert(owns(a, 0, 1, 1));
    assert(owns(a, 0, 2, 2));
    assert(owns(a, 1, 0, 3));
    assert(owns(a, 2, 0, 4));
    assert(owns(a, 3, 0, 5));
    assert(owns(a, 3, 1, 6));
    assert(owns(a, 2, 1, 7));
    assert(owns(a, 1, 1, 8));
    assert(owns(a, 0, 3, 9));
    assert(owns(a, 0, 4, 10));
    assert(owns(a, 0, 5, 11));
}

proof fn lemma_partitioned_prrp_03_12()
    ensures
        segments_partitioned(tile_shape_spec(TileType::PRRP_03_12).unwrap()),
{
    let a = tile_shape_spec(TileType::PRRP_03_12).unwrap();
    assert(owns(a, 0, 0, 0));
    assert(owns(a, 0, 1, 1));
    assert(owns(a, 0, 2, 2));
    assert(owns(a, 1, 0, 3));
    assert(owns(a, 2, 0, 4));
    assert(owns(a, 3, 0, 5));
    assert(owns(a, 3, 1, 6));
    assert(owns(a, 2, 1, 7));
    assert(owns(a, 1, 1, 8));
    assert(owns(a, 0, 3, 9));
    assert(owns(a, 0, 4, 10));
    assert(owns(a, 0, 5, 11));
}

proof fn lemma_partitioned_tftt_013()
    ensures
        segments_partitioned(tile_shape_spec(TileType::TFTT_013).unwrap()),
{
    let a = tile_shape_spec(TileType::TFTT_013).unwrap();
    assert(owns(a, 0, 0, 0));
    assert(owns(a, 0, 1, 1));
    assert(owns(a, 0, 2, 2));
    assert(owns(a, 1, 0, 3));
    assert(owns(a, 1, 1, 4));
    assert(owns(a, 1, 2, 5));
    assert(owns(a, 0, 3, 6));
    assert(owns(a, 0, 4, 7));
    assert(owns(a, 0, 5, 8));
    assert(owns(a, 0, 6, 9));
    assert(owns(a, 0, 7, 10));
    assert(owns(a, 0, 8, 11));
}

proof fn lemma_partitioned_pfpp_013()
    ensures
        segments_partitioned(tile_shape_spec(TileType::PFPP_013).unwrap()),
{
    let a = tile_shape_spec(TileType::PFPP_013).unwrap();
    assert(owns(a, 0, 0, 0));
    assert(owns(a, 0, 1, 1));
    assert(owns(a, 0, 2, 2));
    assert(owns(a, 1, 0, 3));
    assert(owns(a, 1, 1, 4));
    assert(owns(a, 1, 2, 5));
    assert(owns(a, 0, 3, 6));
    assert(owns(a, 0, 4, 7));
    assert(owns(a, 0, 5, 8));
    assert(owns(a, 0, 6, 9));
    assert(owns(a, 0, 7, 10));
    assert(owns(a, 0, 8, 11));
}

proof fn lemma_partitioned_trtt_013()
    ensures
        segments_partitioned(tile_shape_spec(TileType::TRTT_013).unwrap()),
{
    let a = tile_shape_spec(TileType::TRTT_013).unwrap();
    assert(owns(a, 0, 0, 0));
    assert(owns(a, 0, 1, 1));
    assert(owns(a, 0, 2, 2));
    assert(owns(a, 1, 0, 3));
    assert(owns(a, 2, 0, 4));
    assert(owns(a, 3, 0, 5));
    assert(owns(a, 0, 3, 6));
    assert(owns(a, 0, 4, 7));
    assert(owns(a, 0, 5, 8));
    assert(owns(a, 0, 6, 9));
    assert(owns(a, 0, 7, 10));
    assert(owns(a, 0, 8, 11));
}

proof fn lemma_partitioned_prpp_013()
    ensures
        segments_partitioned(tile_shape_spec(TileType::PRPP_013).unwrap()),
{
    let a = tile_shape_spec(TileType::PRPP_013).unwrap();
    assert(owns(a, 0, 0, 0));
    assert(owns(a, 0, 1, 1));
    assert(owns(a, 0, 2, 2));
    assert(owns(a, 1, 0, 3));
    assert(owns(a, 2, 0, 4));
    assert(owns(a, 3, 0, 5));
    assert(owns(a, 0, 3, 6));
    assert(owns(a, 0, 4, 7));
    assert(owns(a, 0, 5, 8));
    assert(owns(a, 0, 6, 9));
    assert(owns(a, 0, 7, 10));
    assert(owns(a, 0, 8, 11));
}

proof fn lemma_partitioned_pppp_0123()
    ensures
        segments_partitioned(tile_shape_spec(TileType::PPPP_0123).unwrap()),
{
    let a = tile_shape_spec(TileType::PPPP_0123).unwrap();
    assert(owns(a, 0, 0, 0));
    assert(owns(a, 0, 1, 1));
    assert(owns(a, 0, 2, 2));
    assert(owns(a, 0, 3, 3));
    assert(owns(a, 0, 4, 4));
    assert(owns(a, 0, 5, 5));
    assert(owns(a, 0, 6, 6));
    assert(owns(a, 0, 7, 7));
    assert(owns(a, 0, 8, 8));
    assert(owns(a, 0, 9, 9));
    assert(owns(a, 0, 10, 10));
    assert(owns(a, 0, 11, 11));
}

/// Every shape that is defined divides the twelve edge segments among its
/// areas: each segment belongs to exactly one area.
pub proof fn lemma_defined_shapes_partitioned(tile_type: TileType)
    requires
        tile_shape_spec(tile_type).is_some(),
    ensures
        segments_partitioned(tile_shape_spec(tile_type).unwrap()),
{
    match tile_type {
        TileType::RFRF_02 => lemma_partitioned_rfrf_02(),
        TileType::FRRF_12 => lemma_partitioned_frrf_12(),
        TileType::RRRF => lemma_partitioned_rrrf(),
        TileType::RRRR => lemma_partitioned_rrrr(),
        TileType::FFFF_C => lemma_partitioned_ffff_c(),
        TileType::FRFF_C => lemma_partitioned_frff_c(),
        TileType::FFFT => lemma_partitioned_ffft(),
        TileType::RFRT_02 => lemma_partitioned_rfrt_02(),
        TileType::RRFT_01 => lemma_partitioned_rrft_01(),
        TileType::FRRT_12 => lemma_partitioned_frrt_12(),
        TileType::RRRT => lemma_partitioned_rrrt(),
        TileType::FTFT => lemma_partitioned_ftft(),
        TileType::TFFT => lemma_partitioned_tfft(),
        TileType::TFTF_02 => lemma_partitioned_tftf_02(),
        TileType::PFPF_02 => lemma_partitioned_pfpf_02(),
        TileType::TFFT_03 => lemma_partitioned_tfft_03(),
        TileType::PFFP_03 => lemma_partitioned_pffp_03(),
        TileType::TRRT_03_12 => lemma_partitioned_trrt_03_12(),
        TileType::PRRP_03_12 => lemma_partitioned_prrp_03_12(),
        TileType::TFTT_013 => lemma_partitioned_tftt_013(),
        TileType::PFPP_013 => lemma_partitioned_pfpp_013(),
        TileType::TRTT_013 => lemma_partitioned_trtt_013(),
        TileType::PRPP_013 => lemma_partitioned_prpp_013(),
        TileType::PPPP_0123 => lemma_partitioned_pppp_0123(),
        _ => {},
    }
}

} // verus!
