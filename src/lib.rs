//! Front end of the Nyx language: literal scanning, tokenization, the
//! indentation-to-block layout transformer, and a recursive-descent parser
//! producing the syntax tree.
//!
//! The pipeline runs one way: [`Lexer`] scans characters into tokens (using
//! [`parse_integer`] and [`parse_float`] for numeric literals),
//! [`IndentLexer`] turns significant indentation into `Indent` / `Dedent`
//! tokens, and [`Parser`] builds the tree. [`parse_source_file`] and its
//! siblings run the whole pipeline on a string, one per grammar symbol.

mod ast;
mod error;
mod float;
mod integer;
mod layout;
mod lexer;
mod parser;
mod text;
mod token;

pub use ast::{
    find_type_param, interp_parts, interp_scan, interp_step, joined_name, keeps_rest, merge_all, merge_one,
    merge_where_clause, names_distinct, param_view, params_view, parse_interp_parts, part_text, ArrayLiteralExpr,
    AssignStatement, BinaryOpExpr, BinaryOperator, Block, CallExpr, CastExpr, ConstPathSegment,
    ConstStatement, ElifClause, Enum,
    EnumVariant, Expression, FieldAccessExpr, ForStatement, Function, FunctionParameter,
    FunctionSignature, GenericParameter, IfStatement, IndexExpr, Interface, InterpolatedPart,
    InterpolatedStringExpr, LetStatement, Namespace, NamespaceItem, Path, SelfParameter,
    SourceFile, Statement, Struct, StructField, Type, TypeAccessExpr, TypeAlias, UnaryOpExpr, UnaryOperator, Union,
    UnionVariant, WhileStatement,
};
pub use error::{
    byte_len, error_message, error_span, first_char_at, newline_count, span_text, LexicalError,
    Span,
};
pub use float::{
    exponent_digits_ok, exponent_mark, exponent_of, exponent_part, exponent_text, exponent_value,
    float_number_part, lemma_float_underscores_irrelevant, mantissa_chars_ok,
    float_suffix_of, float_suffix_text, parse_float, scan_float_spec, FloatExponent,
    FloatLiteral, FloatLiteralBuilder, FloatSuffix,
};
pub use integer::{
    base_of_number, base_prefix, body_chars_ok, digit_value, digits_of_number, digits_value,
    free_of_suffix_letters, int_number_part, int_suffix_from_text, int_suffix_of,
    int_suffix_text, is_base_prefix, lemma_underscore_placement, lemma_underscores_irrelevant,
    parse_integer, radix_of,
    read_digits, scan_integer_spec, without_underscores, Base, BuildError, IntError,
    IntegerLiteral, IntegerLiteralBuilder, IntegerSuffix,
};
pub use layout::{
    capped_width, collapse_newlines, count_of, indent_step, item_matches, items_end, layout, layout_from,
    first_lex_error, layout_run_spans, layout_spans, lemma_layout_keeps_raw_tokens, lexed_item_at,
    lexed_items, next_token_lexeme, raw_tokens, scanned_item_at, scanned_items, spanned_stream_of,
    stream_of,
    strip_layout,
    layout_item,
    layout_run, leading_width, lemma_blank_line_invisible, lemma_layout_balanced, line_start,
    line_width, pop_count, pushes, raw_items_ok, repeat, stack_ok, tokenize, IndentLexer, RawItem,
};
pub use lexer::{
    byte_offset, byte_span, char_scan, comment_close, escaped, exponent_len_spec, float_suffix_len_spec,
    in_class, int_suffix_len_spec, is_digit, is_ident_word, is_letter, is_unexpected_char, lex_at,
    lex_ok, lex_outcome, lex_span, lexed_error, lexed_token, number_end_spec, op_len_spec,
    run_end_spec, skip_line, skip_spec, str_scan, unescape, unescape_literal, LexKind,
    utf8_len, CharClass, Lexer,
};
pub use parser::{
    assign_at, base_type_end, bin_end, bin_loop, binop_level, binop_prec, binop_token, block_end,
    block_starts_spec, body_end, bounds_end, bounds_loop, bracket_close, clause_end, const_end,
    elif_loop, enum_end, expr_end, expr_list_end, expr_list_loop, expr_prec, field_loop, file_loop,
    fn_keyword_at, function_end, generic_list_loop, generic_param_end, generic_params_end,
    generics_at, ident_at, interface_end, is_primitive_token, item_end, item_starts_spec,
    lemma_one_precedence_table, line_end_spec, merged_generics_at, method_loop, namespace_end,
    ns_loop, open_block_spec, params_loop, parse_const, parse_enum, parse_expression,
    parse_function, parse_interface, parse_namespace, parse_source_file, parse_struct, parse_type,
    parse_type_alias, parse_union, parser_for, path_end, postfix_end, postfix_loop, prec_ok,
    primary_end, qname_end, qname_loop, record_end, render_bounds, render_expr, render_exprs,
    render_generic_param, render_generic_params, render_path, render_segments, render_type,
    render_types, segs_end, segs_loop, self_param_end, sig_tail, signature_end, skip_nl,
    source_file_ok, statement_end, stmts_loop, tok_at, type_alias_end, type_block_end,
    type_block_loop, type_end, type_list_end, type_list_loop, type_ok, unary_end, unop_at_spec,
    unop_token, variant_loop, where_block_end, where_loop, word_at, ParseError, Parser,
};
pub use text::{
    chars_of, decimal, digit_char, ends_with, starts_with,
};
pub use token::{is_unit, keyword_of, operator1, operator2, operator3, operator_of, Token};
