use vstd::prelude::*;
use vstd::string::StringExecFns;

use crate::camera::{camera_wf, Camera};
use crate::color::{color_line, ray_color, write_color};
use crate::fixed::{div_trunc, lemma_div_trunc_nonneg, lemma_div_trunc_quot_le, SCALE};
use crate::material::Material;
use crate::sphere::Sphere;
use crate::text::{dec_rep, push_decimal};
use crate::vector3d::{rand_in_range, Color, Point, Vector3D};
use crate::world::{lemma_world_wf_push, world_wf, Hittable, HittableList};

verus! {

/// The image header: the plain-text pixel-map magic, the dimensions, and the
/// channel maximum.
pub open spec fn header_spec(width: int, height: int) -> Seq<char> {
    seq!['P', '3', '\n'] + dec_rep(width) + seq![' '] + dec_rep(height) + seq![
        '\n',
        '2',
        '5',
        '5',
        '\n',
    ]
}

/// Appends the image header to the render buffer.
pub fn create_header(render: &mut String, width: u32, height: u32)
    ensures
        final(render)@ == old(render)@ + header_spec(width as int, height as int),
{
    render.append("P3\n");
    push_decimal(render, width);
    render.append(" ");
    push_decimal(render, height);
    render.append("\n255\n");
    proof {
        reveal_strlit("P3\n");
        reveal_strlit(" ");
        reveal_strlit("\n255\n");
        assert("P3\n"@ =~= seq!['P', '3', '\n']);
        assert(" "@ =~= seq![' ']);
        assert("\n255\n"@ =~= seq!['\n', '2', '5', '5', '\n']);
        assert(render@ =~= old(render)@ + header_spec(width as int, height as int));
    }
}

/// The concatenation of the output lines of the given accumulated pixel
/// colors, in order.
pub open spec fn lines_concat(pix: Seq<Color>, samples: int) -> Seq<char>
    decreases pix.len(),
{
    if pix.len() == 0 {
        Seq::empty()
    } else {
        lines_concat(pix.drop_last(), samples) + color_line(pix.last(), samples)
    }
}

/// Every accumulated pixel channel lies in [0, samples], in fixed-point
/// units.
pub open spec fn pix_wf(pix: Seq<Color>, samples: int) -> bool {
    forall|k: int|
        0 <= k < pix.len() ==> {
            let c = #[trigger] pix[k];
            &&& 0 <= c.x <= samples * SCALE
            &&& 0 <= c.y <= samples * SCALE
            &&& 0 <= c.z <= samples * SCALE
        }
}

/// Renders a scene to the plain-text pixel map: the header, then one line per
/// pixel, rows top to bottom and columns left to right. Each pixel
/// accumulates samples_per_pixel camera rays traced to the given bounce
/// depth; with jitter on, each sample is offset by a random sub-pixel
/// amount, else by zero.
pub fn render_scene(
    world: &HittableList,
    camera: &Camera,
    width: u32,
    height: u32,
    samples_per_pixel: u32,
    depth: i32,
    jitter: bool,
) -> (r: String)
    requires
        world_wf(world.objects@),
        camera_wf(*camera),
        2 <= width <= 65536,
        2 <= height <= 65536,
        1 <= samples_per_pixel <= 1_000_000,
    ensures
        exists|pix: Seq<Color>|
            #![trigger lines_concat(pix, samples_per_pixel as int)]
            pix.len() == (width as int) * (height as int) && pix_wf(
                pix,
                samples_per_pixel as int,
            ) && r@ == header_spec(width as int, height as int) + lines_concat(
                pix,
                samples_per_pixel as int,
            ),
{
    let mut render = String::new();
    create_header(&mut render, width, height);
    let ghost header = render@;
    let ghost mut pix: Seq<Color> = Seq::empty();
    proof {
        assert(header =~= header_spec(width as int, height as int));
        assert(render@ =~= header + lines_concat(pix, samples_per_pixel as int));
    }
    let mut y: u32 = height;
    while y > 0
        invariant
            world_wf(world.objects@),
            camera_wf(*camera),
            2 <= width <= 65536,
            2 <= height <= 65536,
            1 <= samples_per_pixel <= 1_000_000,
            y <= height,
            pix.len() == (height - y) * (width as int),
            pix_wf(pix, samples_per_pixel as int),
            render@ == header + lines_concat(pix, samples_per_pixel as int),
        decreases y,
    {
        y = y - 1;
        let mut x: u32 = 0;
        while x < width
            invariant
                world_wf(world.objects@),
                camera_wf(*camera),
                2 <= width <= 65536,
                2 <= height <= 65536,
                1 <= samples_per_pixel <= 1_000_000,
                y < height,
                x <= width,
                pix.len() == (height - y - 1) * (width as int) + x,
                pix_wf(pix, samples_per_pixel as int),
                render@ == header + lines_concat(pix, samples_per_pixel as int),
            decreases width - x,
        {
            let mut pixel_color = Vector3D { x: 0, y: 0, z: 0 };
            let mut s: u32 = 0;
            while s < samples_per_pixel
                invariant
                    world_wf(world.objects@),
                    camera_wf(*camera),
                    2 <= width <= 65536,
                    2 <= height <= 65536,
                    1 <= samples_per_pixel <= 1_000_000,
                    y < height,
                    x < width,
                    s <= samples_per_pixel,
                    0 <= pixel_color.x <= (s as int) * SCALE,
                    0 <= pixel_color.y <= (s as int) * SCALE,
                    0 <= pixel_color.z <= (s as int) * SCALE,
                decreases samples_per_pixel - s,
            {
                let ju: i128 = if jitter {
                    rand_in_range(0, 1_000_000) as i128
                } else {
                    0
                };
                let jv: i128 = if jitter {
                    rand_in_range(0, 1_000_000) as i128
                } else {
                    0
                };
                proof {
                    lemma_div_trunc_nonneg((x as int) * SCALE + ju, (width - 1) as int);
                    lemma_div_trunc_quot_le(
                        (x as int) * SCALE + ju,
                        (width - 1) as int,
                        2 * SCALE as int,
                    );
                    lemma_div_trunc_nonneg((y as int) * SCALE + jv, (height - 1) as int);
                    lemma_div_trunc_quot_le(
                        (y as int) * SCALE + jv,
                        (height - 1) as int,
                        2 * SCALE as int,
                    );
                }
                let u = div_trunc((x as i128) * SCALE + ju, (width - 1) as i128);
                let v = div_trunc((y as i128) * SCALE + jv, (height - 1) as i128);
                let ray = camera.get_ray(u, v);
                let c = ray_color(&ray, world, depth);
                pixel_color = pixel_color.add(c);
                s = s + 1;
            }
            let line = write_color(&pixel_color, samples_per_pixel as i32);
            render.append(line.as_str());
            proof {
                let ghost prev = pix;
                pix = pix.push(pixel_color);
                assert(pix.drop_last() =~= prev);
                assert(pix.last() == pixel_color);
                assert(render@ =~= header + lines_concat(pix, samples_per_pixel as int));
                assert(pix_wf(pix, samples_per_pixel as int)) by {
                    assert(forall|k: int|
                        0 <= k < prev.len() ==> pix[k] == #[trigger] prev[k]);
                }
            }
            x = x + 1;
        }
        proof {
            assert((height - y - 1) * (width as int) + width == (height - y) * (width as int))
                by (nonlinear_arith);
        }
    }
    proof {
        assert((height - 0) * (width as int) == (width as int) * (height as int))
            by (nonlinear_arith);
        assert(pix.len() == (width as int) * (height as int) && pix_wf(
            pix,
            samples_per_pixel as int,
        ) && render@ == header_spec(width as int, height as int) + lines_concat(
            pix,
            samples_per_pixel as int,
        ));
    }
    render
}

/// Renders the fixed demonstration scene at the given output width: a grid
/// of metal spheres with randomly chosen albedos floating over a large green
/// diffuse ground sphere, seen by the default camera at a 16:9 aspect ratio,
/// 50 samples per pixel and 25 bounces.
pub fn render(width: u32) -> (r: String)
    requires
        4 <= width <= 65536,
    ensures
        exists|pix: Seq<Color>|
            #![trigger lines_concat(pix, 50int)]
            pix.len() == (width as int) * ((width as int) * 9 / 16) && pix_wf(pix, 50int) && r@
                == header_spec(width as int, (width as int) * 9 / 16) + lines_concat(pix, 50int),
{
    let height = width * 9 / 16;
    let samples_per_pixel: u32 = 50;
    let depth: i32 = 25;

    let mut world = HittableList::new();
    let mut x: u32 = 1;
    while x < 10
        invariant
            world_wf(world.objects@),
            x <= 10,
        decreases 10 - x,
    {
        let mut z: u32 = 1;
        while z < 5
            invariant
                world_wf(world.objects@),
                x < 10,
                z <= 5,
            decreases 5 - z,
        {
            let choice = rand_in_range(1, 4);
            let albedo = if choice == 1 {
                Vector3D { x: 50_000, y: 50_000, z: 50_000 }
            } else if choice == 2 {
                Vector3D { x: 700_000, y: 700_000, z: 700_000 }
            } else {
                Vector3D { x: 0, y: 0, z: 330_000 }
            };
            let sphere = Sphere {
                center: Point {
                    x: -3_000_000 + 600_000 * (x as i128),
                    y: -750_000,
                    z: -1_200_000 - 500_000 * (z as i128),
                },
                radius: 250_000,
                material: Material::Metal { albedo },
            };
            proof {
                lemma_world_wf_push(world.objects@, Hittable::Sphere(sphere));
            }
            world.add(Hittable::Sphere(sphere));
            z = z + 1;
        }
        x = x + 1;
    }
    let ground = Sphere {
        center: Point { x: 0, y: -101_000_000, z: 0 },
        radius: 100_000_000,
        material: Material::Lambert { albedo: Vector3D { x: 0, y: 700_000, z: 0 } },
    };
    proof {
        lemma_world_wf_push(world.objects@, Hittable::Sphere(ground));
    }
    world.add(Hittable::Sphere(ground));

    let camera = Camera::new();
    render_scene(&world, &camera, width, height, samples_per_pixel, depth, true)
}

} // verus!
