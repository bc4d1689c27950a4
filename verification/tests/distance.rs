use vector_index::distance::{
    distance_key, CosineDistance, DistanceMeasurement, InnerProductDistance, L1Distance,
    L2Distance, PbDistanceType,
};

#[test]
fn every_measure_type_stands_for_its_measure() {
    assert_eq!(L1Distance::measurement(), DistanceMeasurement::L1);
    assert_eq!(L2Distance::measurement(), DistanceMeasurement::L2);
    assert_eq!(CosineDistance::measurement(), DistanceMeasurement::Cosine);
    assert_eq!(InnerProductDistance::measurement(), DistanceMeasurement::InnerProduct);
}

#[test]
fn a_measure_is_named_as_the_descriptor_names_it() {
    assert_eq!(DistanceMeasurement::from_pb(PbDistanceType::L1), DistanceMeasurement::L1);
    assert_eq!(DistanceMeasurement::from_pb(PbDistanceType::L2), DistanceMeasurement::L2);
    assert_eq!(DistanceMeasurement::from_pb(PbDistanceType::Cosine), DistanceMeasurement::Cosine);
    assert_eq!(
        DistanceMeasurement::from_pb(PbDistanceType::InnerProduct),
        DistanceMeasurement::InnerProduct
    );
    for measure in [
        DistanceMeasurement::L1,
        DistanceMeasurement::L2,
        DistanceMeasurement::Cosine,
        DistanceMeasurement::InnerProduct,
    ] {
        assert_ne!(measure.to_pb(), PbDistanceType::Unspecified);
        assert_eq!(DistanceMeasurement::from_pb(measure.to_pb()), measure);
    }
}

#[test]
fn keys_are_ordered_as_the_distances() {
    let distances = [
        f32::NEG_INFINITY,
        -3.2870955,
        -1.0,
        -1.0e-30,
        -0.0,
        0.0,
        1.0e-30,
        0.22848958,
        2.054677,
        3.6808228,
        f32::MAX,
        f32::INFINITY,
    ];
    for pair in distances.windows(2) {
        assert!(distance_key(pair[0].to_bits()) < distance_key(pair[1].to_bits()));
    }
    assert_eq!(distance_key(0.0f32.to_bits()), 0x8000_0000);
    assert_eq!(distance_key((-0.0f32).to_bits()), 0x7fff_ffff);
    assert_eq!(distance_key(1.0f32.to_bits()), 0xbf80_0000);
    assert_eq!(distance_key((-1.0f32).to_bits()), 0x407f_ffff);
}
