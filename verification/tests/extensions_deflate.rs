//! Tests of the extension framework and permessage-deflate.

use rsws::extensions::deflate::{DeflateConfig, DeflateExtension};
use rsws::extensions::{
    Extension, ExtensionOffer, ExtensionParam, ExtensionRegistry, RsvBits,
};
use rsws::protocol::Frame;
use rsws::OpCode;

#[test]
fn test_extension_param_new() {
    let param = ExtensionParam::new("client_max_window_bits", "15");
    assert_eq!(param.name, "client_max_window_bits");
    assert_eq!(param.value, Some("15".to_string()));
}

#[test]
fn test_extension_param_flag() {
    let param = ExtensionParam::flag("server_no_context_takeover");
    assert_eq!(param.name, "server_no_context_takeover");
    assert_eq!(param.value, None);
}

#[test]
fn test_extension_param_parse_with_value() {
    let param = ExtensionParam::parse("client_max_window_bits=15");
    assert_eq!(param.name, "client_max_window_bits");
    assert_eq!(param.value, Some("15".to_string()));
}

#[test]
fn test_extension_param_parse_flag() {
    let param = ExtensionParam::parse("server_no_context_takeover");
    assert_eq!(param.name, "server_no_context_takeover");
    assert_eq!(param.value, None);
}

#[test]
fn test_extension_param_parse_quoted_value() {
    let param = ExtensionParam::parse("param=\"quoted value\"");
    assert_eq!(param.name, "param");
    assert_eq!(param.value, Some("quoted value".to_string()));
}

#[test]
fn test_extension_param_display() {
    let param = ExtensionParam::new("bits", "15");
    assert_eq!(param.to_header_string(), "bits=15");

    let flag = ExtensionParam::flag("no_context");
    assert_eq!(flag.to_header_string(), "no_context");
}

#[test]
fn test_extension_offer_parse_simple() {
    let offer = ExtensionOffer::parse("permessage-deflate").unwrap();
    assert_eq!(offer.name, "permessage-deflate");
    assert!(offer.params.is_empty());
}

#[test]
fn test_extension_offer_parse_with_params() {
    let offer = ExtensionOffer::parse("permessage-deflate; client_max_window_bits=15").unwrap();
    assert_eq!(offer.name, "permessage-deflate");
    assert_eq!(offer.params.len(), 1);
    assert_eq!(offer.params[0].name, "client_max_window_bits");
    assert_eq!(offer.params[0].value, Some("15".to_string()));
}

#[test]
fn test_extension_offer_parse_multiple_params() {
    let offer = ExtensionOffer::parse(
        "permessage-deflate; client_max_window_bits=15; server_no_context_takeover",
    )
    .unwrap();
    assert_eq!(offer.name, "permessage-deflate");
    assert_eq!(offer.params.len(), 2);
    assert_eq!(offer.params[0].name, "client_max_window_bits");
    assert_eq!(offer.params[1].name, "server_no_context_takeover");
    assert_eq!(offer.params[1].value, None);
}

#[test]
fn test_extension_offer_parse_header() {
    let offers = ExtensionOffer::parse_header(
        "permessage-deflate; client_max_window_bits, x-webkit-deflate-frame",
    )
    .unwrap();
    assert_eq!(offers.len(), 2);
    assert_eq!(offers[0].name, "permessage-deflate");
    assert_eq!(offers[1].name, "x-webkit-deflate-frame");
}

#[test]
fn test_extension_offer_get_param() {
    let offer = ExtensionOffer::parse("ext; param1=value1; param2").unwrap();

    let param = offer.get_param("param1").unwrap();
    assert_eq!(param.value, Some("value1".to_string()));

    assert!(offer.has_param("param2"));
    assert!(!offer.has_param("param3"));
}

#[test]
fn test_extension_offer_display() {
    let offer = ExtensionOffer::with_params(
        "permessage-deflate",
        vec![
            ExtensionParam::new("client_max_window_bits", "15"),
            ExtensionParam::flag("server_no_context_takeover"),
        ],
    );
    assert_eq!(
        offer.to_header_string(),
        "permessage-deflate; client_max_window_bits=15; server_no_context_takeover"
    );
}

#[test]
fn test_extension_offer_parse_empty_name_error() {
    let result = ExtensionOffer::parse("");
    assert!(result.is_err());
}

#[test]
fn test_rsv_bits_none() {
    let bits = RsvBits::none();
    assert!(!bits.rsv1);
    assert!(!bits.rsv2);
    assert!(!bits.rsv3);
}

#[test]
fn test_rsv_bits_rsv1() {
    let bits = RsvBits::rsv1_only();
    assert!(bits.rsv1);
    assert!(!bits.rsv2);
    assert!(!bits.rsv3);
}

#[test]
fn test_rsv_bits_conflicts() {
    let rsv1 = RsvBits::rsv1_only();
    let rsv1_again = RsvBits::rsv1_only();
    let none = RsvBits::none();

    assert!(rsv1.conflicts_with(&rsv1_again));
    assert!(!rsv1.conflicts_with(&none));
    assert!(!none.conflicts_with(&none));
}

/// An extension that does nothing, for exercising the framework.
struct NoOpExtension {
    name: String,
    rsv_bits: RsvBits,
    encode_called: usize,
    decode_called: usize,
}

impl NoOpExtension {
    fn new(name: &str) -> Self {
        NoOpExtension {
            name: name.to_string(),
            rsv_bits: RsvBits::none(),
            encode_called: 0,
            decode_called: 0,
        }
    }

    fn with_rsv1(mut self) -> Self {
        self.rsv_bits = RsvBits::rsv1_only();
        self
    }
}

impl Extension for NoOpExtension {
    // The trait's ghost members exist only for verification; they are
    // never called at run time, so diverging bodies satisfy them here.
    fn spec_name(&self) -> vstd::seq::Seq<char> {
        panic!()
    }

    fn spec_rsv(&self) -> RsvBits {
        panic!()
    }

    fn spec_offer(&self) -> vstd::seq::Seq<(vstd::seq::Seq<char>, Option<vstd::seq::Seq<char>>)> {
        panic!()
    }

    fn name(&self) -> &str {
        &self.name
    }

    fn rsv_bits(&self) -> RsvBits {
        self.rsv_bits
    }

    fn negotiate(
        &mut self,
        _params: &[ExtensionParam],
    ) -> Result<Vec<ExtensionParam>, rsws::Error> {
        Ok(vec![])
    }

    fn configure(&mut self, _params: &[ExtensionParam]) -> Result<(), rsws::Error> {
        Ok(())
    }

    fn encode(&mut self, _frame: &mut Frame) -> Result<(), rsws::Error> {
        self.encode_called += 1;
        Ok(())
    }

    fn decode(&mut self, _frame: &mut Frame) -> Result<(), rsws::Error> {
        self.decode_called += 1;
        Ok(())
    }

    fn offer_params(&self) -> Vec<ExtensionParam> {
        vec![ExtensionParam::flag("test-param")]
    }
}

#[test]
fn test_extension_trait_name() {
    let ext = NoOpExtension::new("test-extension");
    assert_eq!(ext.name(), "test-extension");
}

#[test]
fn test_extension_trait_rsv_bits() {
    let ext = NoOpExtension::new("test").with_rsv1();
    assert!(ext.rsv_bits().rsv1);
}

#[test]
fn test_extension_trait_negotiate() {
    let mut ext = NoOpExtension::new("test");
    let params = ext.negotiate(&[]).unwrap();
    assert!(params.is_empty());
}

#[test]
fn test_extension_trait_encode_decode() {
    let mut ext = NoOpExtension::new("test");
    let mut frame = Frame::text(b"hello".to_vec());

    ext.encode(&mut frame).unwrap();
    assert_eq!(ext.encode_called, 1);

    ext.decode(&mut frame).unwrap();
    assert_eq!(ext.decode_called, 1);
}

#[test]
fn test_extension_offer_params() {
    let ext = NoOpExtension::new("test");
    let params = ext.offer_params();
    assert_eq!(params.len(), 1);
    assert_eq!(params[0].name, "test-param");
}

#[test]
fn test_registry_new() {
    let registry: ExtensionRegistry<NoOpExtension> = ExtensionRegistry::new();
    assert!(registry.is_empty());
    assert_eq!(registry.len(), 0);
}

#[test]
fn test_registry_add_extension() {
    let mut registry = ExtensionRegistry::new();
    registry.add(NoOpExtension::new("test")).unwrap();
    assert_eq!(registry.len(), 1);
    assert!(!registry.is_empty());
}

#[test]
fn test_registry_add_multiple_extensions() {
    let mut registry = ExtensionRegistry::new();
    registry.add(NoOpExtension::new("ext1")).unwrap();
    registry.add(NoOpExtension::new("ext2")).unwrap();
    assert_eq!(registry.len(), 2);
}

#[test]
fn test_registry_rsv_conflict_detection() {
    let mut registry = ExtensionRegistry::new();
    registry
        .add(NoOpExtension::new("ext1").with_rsv1())
        .unwrap();

    let result = registry.add(NoOpExtension::new("ext2").with_rsv1());
    assert!(result.is_err());
}

#[test]
fn test_registry_offer_header() {
    let mut registry = ExtensionRegistry::new();
    registry.add(NoOpExtension::new("ext1")).unwrap();
    registry.add(NoOpExtension::new("ext2")).unwrap();

    let header = registry.offer_header();
    assert!(header.contains("ext1"));
    assert!(header.contains("ext2"));
    assert!(header.contains("test-param"));
}

#[test]
fn test_registry_negotiate() {
    let mut registry = ExtensionRegistry::new();
    registry.add(NoOpExtension::new("ext1")).unwrap();
    registry.add(NoOpExtension::new("ext2")).unwrap();

    let offers = vec![
        ExtensionOffer::new("ext1"),
        ExtensionOffer::new("unknown"),
        ExtensionOffer::new("ext2"),
    ];

    let accepted = registry.negotiate(&offers);
    assert_eq!(accepted.len(), 2);
    assert_eq!(accepted[0].name, "ext1");
    assert_eq!(accepted[1].name, "ext2");
    assert_eq!(registry.negotiated_count(), 2);
}

#[test]
fn test_registry_negotiate_unknown_extension() {
    let mut registry = ExtensionRegistry::new();
    registry.add(NoOpExtension::new("known")).unwrap();

    let offers = vec![ExtensionOffer::new("unknown")];
    let accepted = registry.negotiate(&offers);
    assert!(accepted.is_empty());
    assert_eq!(registry.negotiated_count(), 0);
}

#[test]
fn test_registry_encode_decode_pipeline() {
    let mut registry = ExtensionRegistry::new();
    registry.add(NoOpExtension::new("ext1")).unwrap();
    registry.add(NoOpExtension::new("ext2")).unwrap();

    let offers = vec![ExtensionOffer::new("ext1"), ExtensionOffer::new("ext2")];
    registry.negotiate(&offers);

    let mut frame = Frame::text(b"test".to_vec());

    registry.encode(&mut frame).unwrap();
    registry.decode(&mut frame).unwrap();

    assert_eq!(registry.negotiated_count(), 2);
}

#[test]
fn test_registry_configure_client_side() {
    let mut registry = ExtensionRegistry::new();
    registry.add(NoOpExtension::new("ext1")).unwrap();

    let responses = vec![ExtensionOffer::new("ext1")];
    registry.configure(&responses).unwrap();

    assert_eq!(registry.negotiated_count(), 1);
}

#[test]
fn test_registry_response_header() {
    let registry: ExtensionRegistry<NoOpExtension> = ExtensionRegistry::new();
    let accepted = vec![ExtensionOffer::with_params(
        "permessage-deflate",
        vec![ExtensionParam::new("client_max_window_bits", "15")],
    )];

    let header = registry.response_header(&accepted);
    assert_eq!(header, "permessage-deflate; client_max_window_bits=15");
}

#[test]
fn test_full_negotiation_flow() {
    let mut client_registry = ExtensionRegistry::new();
    client_registry
        .add(NoOpExtension::new("permessage-deflate"))
        .unwrap();

    let offer_header = client_registry.offer_header();
    assert!(offer_header.contains("permessage-deflate"));

    let mut server_registry = ExtensionRegistry::new();
    server_registry
        .add(NoOpExtension::new("permessage-deflate"))
        .unwrap();

    let client_offers = ExtensionOffer::parse_header(&offer_header).unwrap();
    let accepted = server_registry.negotiate(&client_offers);
    assert_eq!(accepted.len(), 1);

    client_registry.configure(&accepted).unwrap();
    assert_eq!(client_registry.negotiated_count(), 1);
}

#[test]
fn test_frame_not_modified_by_noop() {
    let mut registry = ExtensionRegistry::new();
    registry.add(NoOpExtension::new("noop")).unwrap();

    let offers = vec![ExtensionOffer::new("noop")];
    registry.negotiate(&offers);

    let mut frame = Frame::new(true, OpCode::Text, b"original".to_vec());
    let original_payload = frame.payload().to_vec();

    registry.encode(&mut frame).unwrap();
    registry.decode(&mut frame).unwrap();

    assert_eq!(frame.payload().as_slice(), &original_payload[..]);
}

#[test]
fn test_compression_roundtrip() {
    let mut client_ext = DeflateExtension::client(DeflateConfig::default());
    let mut server_ext = DeflateExtension::server(DeflateConfig::default());
    client_ext.negotiated = true;
    server_ext.negotiated = true;

    let original_data = b"Hello, WebSocket compression! This is a test message.".to_vec();
    let mut frame = Frame::text(original_data.clone());

    client_ext.encode(&mut frame).unwrap();
    assert!(frame.rsv1);
    assert_ne!(frame.payload().as_slice(), &original_data[..]);

    server_ext.decode(&mut frame).unwrap();
    assert!(!frame.rsv1);
    assert_eq!(frame.payload().as_slice(), &original_data[..]);
}

#[test]
fn test_parameter_negotiation() {
    let mut ext = DeflateExtension::new(DeflateConfig::default(), true);

    let params = vec![
        ExtensionParam::flag("server_no_context_takeover"),
        ExtensionParam::new("client_max_window_bits", "12"),
    ];

    let response = ext.negotiate(&params).unwrap();

    assert!(ext.config.server_no_context_takeover);
    assert_eq!(ext.config.client_max_window_bits, 12);
    assert!(response
        .iter()
        .any(|p| p.name == "server_no_context_takeover"));
    assert!(response.iter().any(|p| p.name == "client_max_window_bits"));
}

#[test]
fn test_control_frame_bypass() {
    let mut ext = DeflateExtension::new(DeflateConfig::default(), false);
    ext.negotiated = true;

    let ping_data = b"ping".to_vec();
    let mut ping_frame = Frame::ping(ping_data.clone());

    ext.encode(&mut ping_frame).unwrap();
    assert!(!ping_frame.rsv1);
    assert_eq!(ping_frame.payload().as_slice(), &ping_data[..]);

    let pong_data = b"pong".to_vec();
    let mut pong_frame = Frame::pong(pong_data.clone());

    ext.encode(&mut pong_frame).unwrap();
    assert!(!pong_frame.rsv1);
    assert_eq!(pong_frame.payload().as_slice(), &pong_data[..]);

    let mut close_frame = Frame::close(Some(1000), "bye");
    let close_payload = close_frame.payload().to_vec();

    ext.encode(&mut close_frame).unwrap();
    assert!(!close_frame.rsv1);
    assert_eq!(close_frame.payload().as_slice(), &close_payload[..]);
}

#[test]
fn test_context_takeover_config() {
    let config = DeflateConfig::new()
        .server_no_context_takeover(true)
        .client_no_context_takeover(true);

    assert!(config.server_no_context_takeover);
    assert!(config.client_no_context_takeover);

    let ext = DeflateExtension::new(config, false);
    let params = ext.offer_params();

    assert!(params
        .iter()
        .any(|p| p.name == "server_no_context_takeover"));
    assert!(params
        .iter()
        .any(|p| p.name == "client_no_context_takeover"));
}

#[test]
fn test_empty_payload_handling() {
    let mut ext = DeflateExtension::new(DeflateConfig::default(), false);
    ext.negotiated = true;

    let mut frame = Frame::new(true, OpCode::Text, Vec::new());

    ext.encode(&mut frame).unwrap();
    assert!(!frame.rsv1);
    assert!(frame.payload().is_empty());
}

#[test]
fn test_window_bits_validation() {
    assert!(DeflateConfig::new().server_max_window_bits(8).is_ok());
    assert!(DeflateConfig::new().server_max_window_bits(15).is_ok());
    assert!(DeflateConfig::new().server_max_window_bits(7).is_err());
    assert!(DeflateConfig::new().server_max_window_bits(16).is_err());

    assert!(DeflateConfig::new().client_max_window_bits(8).is_ok());
    assert!(DeflateConfig::new().client_max_window_bits(15).is_ok());
    assert!(DeflateConfig::new().client_max_window_bits(7).is_err());
    assert!(DeflateConfig::new().client_max_window_bits(16).is_err());
}

#[test]
fn test_compression_level_validation() {
    assert!(DeflateConfig::new().compression_level(0).is_ok());
    assert!(DeflateConfig::new().compression_level(9).is_ok());
    assert!(DeflateConfig::new().compression_level(10).is_err());
}

#[test]
fn test_rsv1_on_control_frame_error() {
    let mut ext = DeflateExtension::new(DeflateConfig::default(), false);
    ext.negotiated = true;

    let mut frame = Frame::ping(b"test".to_vec());
    frame.rsv1 = true;

    let result = ext.decode(&mut frame);
    assert!(result.is_err());
}

#[test]
fn test_binary_frame_compression() {
    let mut client_ext = DeflateExtension::client(DeflateConfig::default());
    let mut server_ext = DeflateExtension::server(DeflateConfig::default());
    client_ext.negotiated = true;
    server_ext.negotiated = true;

    let original_data: Vec<u8> = (0..256usize).map(|i| (i % 256) as u8).collect();
    let mut frame = Frame::binary(original_data.clone());

    client_ext.encode(&mut frame).unwrap();
    assert!(frame.rsv1);

    server_ext.decode(&mut frame).unwrap();
    assert_eq!(frame.payload().as_slice(), &original_data[..]);
}

#[test]
fn test_extension_name_and_rsv_bits() {
    let ext = DeflateExtension::new(DeflateConfig::default(), false);
    assert_eq!(ext.name(), "permessage-deflate");
    assert!(ext.rsv_bits().rsv1);
    assert!(!ext.rsv_bits().rsv2);
    assert!(!ext.rsv_bits().rsv3);
}

#[test]
fn test_unknown_parameter_rejected() {
    let mut ext = DeflateExtension::new(DeflateConfig::default(), true);

    let params = vec![ExtensionParam::flag("unknown_param")];

    let result = ext.negotiate(&params);
    assert!(result.is_err());
}

#[test]
fn test_window_bits_applied_to_encoder() {
    let config = DeflateConfig::new().client_max_window_bits(9).unwrap();
    let mut ext = DeflateExtension::client(config);
    ext.negotiated = true;

    ext.ensure_encoder();
    assert!(ext.encoder.is_some());

    let mut frame = Frame::text(b"test data for compression".to_vec());
    ext.encode(&mut frame).unwrap();
    assert!(frame.rsv1);
}

#[test]
fn test_window_bits_applied_to_decoder() {
    let config = DeflateConfig::new()
        .server_max_window_bits(9)
        .unwrap()
        .client_max_window_bits(9)
        .unwrap();

    let mut server_ext = DeflateExtension::server(config.clone());
    server_ext.negotiated = true;

    let mut client_ext = DeflateExtension::client(config);
    client_ext.negotiated = true;

    let data = b"This is some data that will be compressed with 9-bit window".to_vec();
    let mut frame = Frame::text(data.clone());

    server_ext.encode(&mut frame).unwrap();
    client_ext.decode(&mut frame).unwrap();

    assert_eq!(frame.payload().as_slice(), &data[..]);
}

#[test]
fn test_negotiated_window_bits_used() {
    let mut ext = DeflateExtension::server(DeflateConfig::default());
    let params = vec![
        ExtensionParam::new("server_max_window_bits", "9"),
        ExtensionParam::new("client_max_window_bits", "10"),
    ];
    ext.negotiate(&params).unwrap();

    assert_eq!(ext.config.server_max_window_bits, 9);
    assert_eq!(ext.config.client_max_window_bits, 10);

    ext.ensure_encoder();
    ext.ensure_decoder();

    assert!(ext.encoder.is_some());
    assert!(ext.decoder.is_some());
}

#[test]
fn test_context_takeover_improves_compression() {
    let mut client_ext = DeflateExtension::client(DeflateConfig::default());
    let mut server_ext = DeflateExtension::server(DeflateConfig::default());
    client_ext.negotiated = true;
    server_ext.negotiated = true;

    let message = b"The quick brown fox jumps over the lazy dog. ".repeat(10);

    let mut frame1 = Frame::text(message.clone());
    client_ext.encode(&mut frame1).unwrap();
    let first_size = frame1.payload().len();

    server_ext.decode(&mut frame1).unwrap();

    let mut frame2 = Frame::text(message.clone());
    client_ext.encode(&mut frame2).unwrap();
    let second_size = frame2.payload().len();

    assert!(
        second_size <= first_size,
        "Context takeover should improve or maintain compression: second={} first={}",
        second_size,
        first_size
    );

    server_ext.decode(&mut frame2).unwrap();
    assert_eq!(frame2.payload().as_slice(), &message[..]);
}

#[test]
fn test_no_context_takeover_resets_state() {
    let config = DeflateConfig::new().client_no_context_takeover(true);
    let mut client_ext = DeflateExtension::client(config.clone());
    let mut server_ext = DeflateExtension::server(config);
    client_ext.negotiated = true;
    server_ext.negotiated = true;

    let message = b"The quick brown fox jumps over the lazy dog. ".repeat(10);

    let mut frame1 = Frame::text(message.clone());
    client_ext.encode(&mut frame1).unwrap();
    let first_size = frame1.payload().len();
    server_ext.decode(&mut frame1).unwrap();

    let mut frame2 = Frame::text(message.clone());
    client_ext.encode(&mut frame2).unwrap();
    let second_size = frame2.payload().len();

    assert_eq!(
        first_size, second_size,
        "No context takeover should produce same size: first={} second={}",
        first_size, second_size
    );

    server_ext.decode(&mut frame2).unwrap();
    assert_eq!(frame2.payload().as_slice(), &message[..]);
}

#[test]
fn test_decompression_bomb_absolute_cap() {
    // Compress a large repetitive message, then decode it with a tiny
    // absolute cap: the decoder must refuse rather than inflate it.
    let mut enc = DeflateExtension::client(DeflateConfig::default());
    enc.negotiated = true;
    let message = vec![0u8; 100_000];
    let mut frame = Frame::binary(message);
    enc.encode(&mut frame).unwrap();

    let mut tiny = DeflateConfig::default();
    tiny.max_decompressed_size = 1024;
    let mut dec = DeflateExtension::server(tiny);
    dec.negotiated = true;
    let result = dec.decode(&mut frame);
    assert!(result.is_err());
}
