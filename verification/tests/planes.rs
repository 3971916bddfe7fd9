use gridworld::plane::Axis;
use gridworld::plane::Axis2;
use gridworld::plane::Axis3;
use gridworld::plane::AaPlane3;
use gridworld::plane::AaTransform3;
use gridworld::plane::FacedTransform;
use gridworld::plane::Facing;
use gridworld::plane::Plane;

#[test]
fn test_facing() {
    let t = FacedTransform::new(AaPlane3::from_axis_offset(Axis3::X, 0), Facing::PosZ);
    let t = t.flipped();
    assert_eq!(t.facing, Facing::NegZ);
}

#[test]
fn mod_transform_point() {
    for z in -10..10 {
        for y in -10..10 {
            for x in -10..10 {
                for axis in [Axis3::X, Axis3::Y, Axis3::Z] {
                    let position = (x, y, z);
                    let transform = AaPlane3::from_axis_position(axis, position);
                    let uv = transform.unform_point(position);
                    assert_eq!(transform.transform_point(uv), position);
                }
            }
        }
    }
}

#[test]
fn mesh_transform_point() {
    for z in -10..10 {
        for y in -10..10 {
            for x in -10..10 {
                for axis in [Axis3::X, Axis3::Y, Axis3::Z] {
                    let position = (x, y, z);
                    let transform = AaTransform3::from_axis_position(axis, position);
                    let uv = transform.unform_point(position);
                    assert_eq!(transform.transform_point(uv), position);
                }
            }
        }
    }
}

#[test]
fn planes_insert_their_offset_at_their_axis() {
    let plane = AaPlane3::from_axis_offset(Axis3::Y, 7);
    assert_eq!(plane.transform_point((1, 2)), (1, 7, 2));
    assert_eq!(plane.unform_point((1, 7, 2)), (1, 2));
    assert_eq!(plane.normal(), (0, 1, 0));
    let shifted = plane.with_offset(3);
    assert_eq!(shifted.transform_point((1, 2)), (1, 10, 2));
    let transform = AaTransform3::from_axis_offset(Axis3::Z, -2);
    assert_eq!(transform.transform_point((4, 5)), (4, 5, -2));
}

#[test]
fn faced_transforms_sign_their_normal() {
    let faced = FacedTransform::new(AaPlane3::from_axis_offset(Axis3::X, 0), Facing::PosZ);
    assert_eq!(faced.normal(), (1, 0, 0));
    assert_eq!(faced.flipped().normal(), (-1, 0, 0));
    assert_eq!(faced.transform_point((8, 9)), (0, 8, 9));
    let mut faced = faced;
    faced.flip();
    assert_eq!(*faced.facing(), Facing::NegZ);
    faced.offset(5);
    assert_eq!(faced.transform().offset, 5);
}

#[test]
fn axes_carry_their_place() {
    assert_eq!(Axis3::X.index(), 0);
    assert_eq!(Axis3::Y.index(), 1);
    assert_eq!(Axis3::Z.index(), 2);
    assert_eq!(Axis2::X.other(), Axis2::Y);
    assert_eq!(Axis2::Y.other(), Axis2::X);
    let axis: Axis<3> = Axis::new(2);
    assert_eq!(axis.axis(), 2);
    assert_eq!(Facing::default(), Facing::PosZ);
    assert_eq!(Facing::PosZ.sign(), 1);
    assert_eq!(Facing::NegZ.sign(), -1);
    assert_eq!(Facing::PosZ.opposite(), Facing::NegZ);
}
