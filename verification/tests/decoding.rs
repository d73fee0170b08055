use stlp::bounding_box::BoundingBox;
use stlp::coordinate::Coordinate;
use stlp::facet::Facet;
use stlp::parser::ascii;
use stlp::parser::binary;
use stlp::parser::binary::MemSource;
use stlp::parser::error::SolidError as AsciiError;
use stlp::binary32::min32;
use stlp::binary32::max32;
use stlp::solid::Solid;

fn coord(x: f32, y: f32, z: f32) -> Coordinate {
    Coordinate {
        x: x.to_bits(),
        y: y.to_bits(),
        z: z.to_bits(),
    }
}

fn tri(ax: f32, ay: f32, az: f32, bx: f32, by: f32, bz: f32, cx: f32, cy: f32, cz: f32) -> Facet {
    Facet {
        normal_vector: (0f32.to_bits(), 0f32.to_bits(), 1f32.to_bits()),
        vertices: (coord(ax, ay, az), coord(bx, by, bz), coord(cx, cy, cz)),
    }
}

/// Binary encoding of a list of facets, as the format defines it.
fn encode(facets: &[Facet]) -> Vec<u8> {
    let mut out = vec![0u8; 80];
    out.extend_from_slice(&(facets.len() as u32).to_le_bytes());
    for f in facets {
        for v in [
            f.normal_vector.0,
            f.normal_vector.1,
            f.normal_vector.2,
            f.vertices.0.x,
            f.vertices.0.y,
            f.vertices.0.z,
            f.vertices.1.x,
            f.vertices.1.y,
            f.vertices.1.z,
            f.vertices.2.x,
            f.vertices.2.y,
            f.vertices.2.z,
        ] {
            out.extend_from_slice(&v.to_le_bytes());
        }
        out.extend_from_slice(&[0u8, 0u8]);
    }
    out
}

/// The format's reference area formula: over the vertex sums u = a + b
/// and v = a + c, not the textbook edge vectors.
fn reference_area(f: &Facet) -> f32 {
    let a = (
        f32::from_bits(f.vertices.0.x),
        f32::from_bits(f.vertices.0.y),
        f32::from_bits(f.vertices.0.z),
    );
    let b = (
        f32::from_bits(f.vertices.1.x),
        f32::from_bits(f.vertices.1.y),
        f32::from_bits(f.vertices.1.z),
    );
    let c = (
        f32::from_bits(f.vertices.2.x),
        f32::from_bits(f.vertices.2.y),
        f32::from_bits(f.vertices.2.z),
    );
    let u = (a.0 + b.0, a.1 + b.1, a.2 + b.2);
    let v = (a.0 + c.0, a.1 + c.1, a.2 + c.2);
    let t1 = u.0 * v.1 - u.1 * v.0;
    let t2 = u.1 * v.2 - u.2 * v.1;
    let t3 = u.2 * v.0 - u.0 * v.2;
    (t1 * t1 + t2 * t2 + t3 * t3).sqrt() * 0.5
}

#[test]
fn analyze_zero_facets_is_zeroed() {
    let s = Solid {
        name: None,
        facets: vec![],
    };
    let (n, area, bb) = s.analyze();
    assert_eq!(n, 0);
    assert_eq!(area, 0.0f32.to_bits());
    assert_eq!(bb, BoundingBox::zeroed());
}

#[test]
fn area_of_unit_right_triangle_is_exact() {
    let f = tri(0.0, 0.0, 0.0, 1.0, 0.0, 0.0, 0.0, 1.0, 0.0);
    assert_eq!(f.surface_area(), 0.5f32.to_bits());
    assert_eq!(f.surface_area(), reference_area(&f).to_bits());
}

#[test]
fn area_matches_reference_formula_on_odd_triangles() {
    let cases = [
        tri(0.25, -3.5, 1.0, 2.0, 4.75, -0.5, -1.25, 0.125, 9.0),
        tri(1e-8, 2e-8, 3e-8, 4e-8, 5e-8, 6e-8, 9e-8, 8e-8, 7e-8),
        tri(1e18, -2e18, 3e18, -4e18, 5e18, -6e18, 7e18, 8e18, 9e18),
    ];
    for f in &cases {
        assert_eq!(f.surface_area(), reference_area(f).to_bits());
    }
}

#[test]
fn sqrt_matches_hardware_bits() {
    for v in [
        0.0f32,
        -0.0,
        1.0,
        2.0,
        0.5,
        1.5,
        9.0,
        1e-40,
        1e38,
        3.4028235e38,
        f32::INFINITY,
        1.1754942e-38,
    ] {
        assert_eq!(
            stlp::binary32::sqrt32(v.to_bits()),
            v.sqrt().to_bits(),
            "sqrt of {v}"
        );
    }
    assert_eq!(stlp::binary32::sqrt32((-4.0f32).to_bits()), 0xFFC0_0000);
}

#[test]
fn bounding_box_expansion_commutes_and_absorbs() {
    let bb = BoundingBox::zeroed();
    let p = coord(1.0, -2.0, 3.0);
    let q = coord(-4.0, 5.0, -6.0);
    let r = coord(0.5, 0.25, -0.125);
    let once = bb.expand_to_include(&p, &q, &r);
    let twice = once.expand_to_include(&p, &q, &r);
    assert_eq!(once, twice);
    let ab = bb.expand_to_include(&p, &p, &p).expand_to_include(&q, &q, &q);
    let ba = bb.expand_to_include(&q, &q, &q).expand_to_include(&p, &p, &p);
    assert_eq!(ab, ba);
    assert_eq!(once.min, coord(-4.0, -2.0, -6.0));
    assert_eq!(once.max, coord(1.0, 5.0, 3.0));
}

#[test]
fn rectangle_varies_z_fastest() {
    let bb = BoundingBox {
        min: coord(0.0, 1.0, 2.0),
        max: coord(3.0, 4.0, 5.0),
    };
    let r = bb.rectangle();
    assert_eq!(r[0], coord(0.0, 1.0, 2.0));
    assert_eq!(r[1], coord(0.0, 1.0, 5.0));
    assert_eq!(r[2], coord(0.0, 4.0, 2.0));
    assert_eq!(r[3], coord(0.0, 4.0, 5.0));
    assert_eq!(r[4], coord(3.0, 1.0, 2.0));
    assert_eq!(r[5], coord(3.0, 1.0, 5.0));
    assert_eq!(r[6], coord(3.0, 4.0, 2.0));
    assert_eq!(r[7], coord(3.0, 4.0, 5.0));
}

#[test]
fn pairwise_add_is_componentwise() {
    let a = coord(1.5, -2.0, 0.25);
    let b = coord(2.5, 4.0, -1.0);
    assert_eq!(a.pairwise_add(&b), coord(4.0, 2.0, -0.75));
    assert_eq!(Coordinate::origin(), coord(0.0, 0.0, 0.0));
}

#[test]
fn chunks_to_process_divides_the_payload() {
    // 2000 facets fill 100000 bytes: 19 full chunks of 5100 and 3100 left.
    assert_eq!(binary::chunks_to_process(2000), (19, 3100));
    assert_eq!(binary::chunks_to_process(0), (0, 0));
    assert_eq!(binary::chunks_to_process(102), (1, 0));
    assert_eq!(binary::chunks_to_process(101), (0, 5050));
}

fn decode_binary(bytes: Vec<u8>) -> Result<Solid, binary::SolidError> {
    let mut src = MemSource::new(bytes);
    binary::solid(&mut src)
}

#[test]
fn binary_roundtrip_around_chunk_boundary() {
    // One below, at, and above the facets-per-chunk boundary of 102.
    for n in [0usize, 1, 101, 102, 103, 205] {
        let facets: Vec<Facet> = (0..n)
            .map(|i| {
                let i = i as f32;
                tri(i, i + 0.5, -i, i * 2.0, 1.0, 3.5, -1.0, i, 0.125)
            })
            .collect();
        let bytes = encode(&facets);
        let s = decode_binary(bytes).expect("decode");
        assert_eq!(s.facets.len(), n);
        assert!(s.name.is_none());
        let (count1, area1, bb1) = s.analyze();
        // Round trip: encode what was decoded, decode again, and compare.
        let again = decode_binary(encode(&s.facets)).expect("re-decode");
        let (count2, area2, bb2) = again.analyze();
        assert_eq!(count1, count2);
        assert_eq!(area1, area2);
        assert_eq!(bb1, bb2);
        assert_eq!(s.facets, again.facets);
    }
}

#[test]
fn binary_decode_reads_fields_little_endian() {
    let f = tri(1.0, 2.0, 3.0, 4.0, 5.0, 6.0, 7.0, 8.0, 9.0);
    let s = decode_binary(encode(&[f.clone()])).expect("decode");
    assert_eq!(s.facets.len(), 1);
    assert_eq!(s.facets[0], f);
}

#[test]
fn binary_count_larger_than_payload_is_io_error() {
    // The count field declares 3 facets but only one record follows.
    let f = tri(0.0, 0.0, 0.0, 1.0, 0.0, 0.0, 0.0, 1.0, 0.0);
    let mut bytes = encode(&[f]);
    bytes[80] = 3;
    let e = decode_binary(bytes).expect_err("must fail");
    assert!(matches!(e, binary::SolidError::IO(_)));
}

#[test]
fn binary_truncated_header_is_io_error() {
    let e = decode_binary(vec![0u8; 50]).expect_err("must fail");
    assert!(matches!(e, binary::SolidError::IO(_)));
}

const CUBE_FACET: &str =
    "facet normal 0 0 1 outer loop vertex 0 0 0 vertex 1 0 0 vertex 0 1 0 endloop endfacet";

#[test]
fn text_mismatched_names_still_decode() {
    let text = format!("solid cube {CUBE_FACET} endsolid box");
    let s = ascii::solid(text.as_bytes()).expect("decode");
    assert_eq!(s.name.as_deref(), Some(b"cube".as_slice()));
    assert_eq!(s.facets.len(), 1);
}

#[test]
fn text_zero_facets_give_empty_solid() {
    let s = ascii::solid(b"solid empty endsolid empty").expect("decode");
    assert_eq!(s.name.as_deref(), Some(b"empty".as_slice()));
    assert_eq!(s.facets.len(), 0);
    let s2 = ascii::solid(b"  solid endsolid  ").expect("decode");
    assert!(s2.name.is_none());
    assert_eq!(s2.facets.len(), 0);
}

#[test]
fn text_keywords_are_case_insensitive() {
    let lower = format!("solid s {CUBE_FACET} endsolid");
    let upper =
        "SOLID s Facet NORMAL 0 0 1 Outer LOOP vertex 0 0 0 VERTEX 1 0 0 vertex 0 1 0 ENDLOOP EndFacet ENDSOLID";
    let a = ascii::solid(lower.as_bytes()).expect("decode lower");
    let b = ascii::solid(upper.as_bytes()).expect("decode upper");
    assert_eq!(a.facets, b.facets);
    assert_eq!(a.name.as_deref(), Some(b"s".as_slice()));
    assert_eq!(b.name.as_deref(), Some(b"s".as_slice()));
}

#[test]
fn text_facet_values_parse_correctly_rounded() {
    let text =
        "solid v facet normal 0 0 0 outer loop vertex 2.5e1 -0.5 1. vertex .25 1e-2 16777217 vertex -inf NaN 0 endloop endfacet endsolid";
    let s = ascii::solid(text.as_bytes()).expect("decode");
    let v = &s.facets[0].vertices;
    assert_eq!(v.0, coord(25.0, -0.5, 1.0));
    assert_eq!(v.1.x, 0.25f32.to_bits());
    assert_eq!(v.1.y, 0.01f32.to_bits());
    assert_eq!(v.1.z, 16777217f32.to_bits());
    assert_eq!(v.2.x, f32::NEG_INFINITY.to_bits());
    assert_eq!(v.2.y, f32::NAN.to_bits());
}

#[test]
fn text_analysis_of_one_facet() {
    let text = format!("solid s {CUBE_FACET} endsolid s");
    let s = ascii::solid(text.as_bytes()).expect("decode");
    let (n, area, bb) = s.analyze();
    assert_eq!(n, 1);
    assert_eq!(area, 0.5f32.to_bits());
    assert_eq!(bb.min, coord(0.0, 0.0, 0.0));
    assert_eq!(bb.max, coord(1.0, 1.0, 0.0));
}

#[test]
fn text_flexible_whitespace() {
    let text = format!("\n\t solid \r\n name123 \n {}\n endsolid \t\n", CUBE_FACET);
    let s = ascii::solid(text.as_bytes()).expect("decode");
    assert_eq!(s.name.as_deref(), Some(b"name123".as_slice()));
    assert_eq!(s.facets.len(), 1);
}

#[test]
fn text_violations_are_unparsable() {
    let bad: &[&[u8]] = &[
        b"",
        b"nonsense",
        b"solid s facet endsolid",
        b"solid s endsolid s trailing",
        b"solidcube endsolid",
        b"solid s facet normal 0 0 outer loop vertex 0 0 0 vertex 1 0 0 vertex 0 1 0 endloop endfacet endsolid",
        b"solid s facet normal 0 0 1 outer loop vertex 0 0 0 vertex 1 0 0 endloop endfacet endsolid",
        b"solid s facet normal 0 0 1e outer loop vertex 0 0 0 vertex 1 0 0 vertex 0 1 0 endloop endfacet endsolid",
    ];
    for b in bad {
        let e = ascii::solid(b).expect_err("must fail");
        assert!(matches!(e, AsciiError::Unparsable));
    }
}

#[test]
fn text_two_facets_keep_order() {
    let text = format!("solid s {CUBE_FACET} {CUBE_FACET} endsolid");
    let one = format!("solid s {CUBE_FACET} endsolid");
    let two = ascii::solid(text.as_bytes()).expect("decode");
    let single = ascii::solid(one.as_bytes()).expect("decode");
    assert_eq!(two.facets.len(), 2);
    assert_eq!(two.facets[0], single.facets[0]);
    assert_eq!(two.facets[1], single.facets[0]);
    let (n, area, _) = two.analyze();
    assert_eq!(n, 2);
    let half = 0.5f32;
    assert_eq!(area, (half + half).to_bits());
}

#[test]
fn public_facet_rule_parses_one_facet() {
    let rest = ascii::facet(CUBE_FACET.as_bytes()).expect("facet");
    assert_eq!(rest.0, CUBE_FACET.len());
    assert_eq!(ascii::facet(b"vertex 0 0 0"), None);
}

#[test]
fn arithmetic_rounds_like_hardware() {
    let a = coord(1.5, -2.0, 16777216.0);
    let b = coord(2.25, 4.0, 1.0);
    // The last component must round: 16777216 + 1 is not representable.
    assert_eq!(a.pairwise_add(&b), coord(3.75, 2.0, 16777216.0 + 1.0));
}

#[test]
fn min_max_order_bit_patterns_like_values() {
    let a = (-1.5f32).to_bits();
    let b = 2.0f32.to_bits();
    assert_eq!(min32(a, b), a);
    assert_eq!(min32(b, a), a);
    assert_eq!(max32(a, b), b);
    let nan = f32::NAN.to_bits();
    assert_eq!(min32(nan, b), b);
    assert_eq!(min32(b, nan), b);
    assert_eq!(min32((-0.0f32).to_bits(), 0.0f32.to_bits()), (-0.0f32).to_bits());
}
