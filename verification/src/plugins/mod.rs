//! The optimisation plugins.
pub mod cleanup_attrs;
pub mod cleanup_ids;
pub mod remove_desc;
pub mod remove_elements_by_attr;
pub mod remove_doctype;
pub mod convert_ellipse_to_circle;
pub mod add_attributes_to_svg_element;
pub mod remove_deprecated_attrs;
pub mod convert_colors;
pub mod prefix_ids;
pub mod cleanup_enable_background;
pub mod move_group_attrs_to_elems;
pub mod move_elems_attrs_to_group;
pub mod collapse_groups;
pub mod merge_paths;
pub mod apply_transforms;
pub mod convert_transform;
pub mod convert_shape_to_path;
pub mod cleanup_numeric_values;
pub mod merge_styles;
pub mod inline_styles;
pub mod remove_editors_ns_data;
pub mod convert_one_stop_gradients;
pub mod remove_attrs;
pub mod convert_style_to_attrs;
pub mod remove_attributes_by_selector;
pub mod remove_dimensions;
pub mod minify_styles;
pub mod convert_path_data;
