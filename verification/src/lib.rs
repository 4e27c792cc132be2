//! Rasterization of simple 2D shapes: points, lines (Bresenham), circles
//! (parametric sampling), rectangles and triangles composed of line segments.
//! Shapes draw themselves onto any pixel sink implementing [`sink::Displayable`];
//! the sink clips writes that fall outside its bounds.

pub mod circle;
pub mod color;
pub mod drawable;
pub mod line;
pub mod point;
pub mod rectangle;
pub mod rng;
pub mod sink;
pub mod triangle;

pub use circle::Circle;
pub use circle::GeometryError;
pub use color::Color;
pub use drawable::Drawable;
pub use line::Line;
pub use point::Point;
pub use rectangle::Rectangle;
pub use sink::Canvas;
pub use sink::Displayable;
pub use triangle::Triangle;
