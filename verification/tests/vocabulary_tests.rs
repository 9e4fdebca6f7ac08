use anigo_core::geometry::FrustumPlane;
use anigo_core::morph::{AnatomicalZone, SparseMorphHeader};

#[test]
fn morph_header_zeroes_its_padding() {
    let header = SparseMorphHeader::new(3, 4070, 512);
    assert_eq!(header.active_channel_count, 3);
    assert_eq!(header.total_vertex_count, 4070);
    assert_eq!(header.total_delta_count, 512);
    assert_eq!(header._pad, 0);
}

#[test]
fn zones_and_planes_name_and_index_themselves() {
    assert_eq!(AnatomicalZone::GlobalSilhouette.name(), "Proporções Globais & Silhueta");
    assert_eq!(AnatomicalZone::LowerLimbs.name(), "Pernas, Joelhos, Panturrilhas e Pés");
    assert_eq!(FrustumPlane::Left.index(), 0);
    assert_eq!(FrustumPlane::Far.index(), 5);
    assert_eq!(FrustumPlane::PLANE_COUNT, 6);
}
