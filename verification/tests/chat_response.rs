use http::StatusCode;
use recodex::chat_response::{map_chat_error_to_api_error, ChatError, ChatErrorDetail};
use recodex::error::ApiError;

#[test]
fn test_error_response_maps_invalid_request_to_api_error() {
    let error = ChatError {
        error: ChatErrorDetail {
            message: "Invalid request".to_string(),
            type_: "invalid_request_error".to_string(),
            code: Some("invalid_request".to_string()),
        },
    };

    let api_error = map_chat_error_to_api_error(error);

    match api_error {
        ApiError::Api { status, message } => {
            assert_eq!(status, StatusCode::BAD_REQUEST.as_u16());
            assert_eq!(message, "Invalid request");
        }
        _ => panic!("Expected ApiError::Api with BAD_REQUEST status"),
    }
}

#[test]
fn test_rate_limit_error_maps_correctly() {
    let error = ChatError {
        error: ChatErrorDetail {
            message: "Rate limit exceeded".to_string(),
            type_: "rate_limit_error".to_string(),
            code: Some("rate_limit_exceeded".to_string()),
        },
    };

    let api_error = map_chat_error_to_api_error(error);

    match api_error {
        ApiError::RateLimit(message) => {
            assert_eq!(message, "Rate limit exceeded");
        }
        _ => panic!("Expected ApiError::RateLimit"),
    }
}

#[test]
fn test_context_length_exceeded_error_maps_correctly() {
    let error = ChatError {
        error: ChatErrorDetail {
            message: "Context length exceeded".to_string(),
            type_: "context_length_exceeded".to_string(),
            code: None,
        },
    };

    let api_error = map_chat_error_to_api_error(error);

    assert!(matches!(api_error, ApiError::ContextWindowExceeded));
}

#[test]
fn test_authentication_error_maps_to_401() {
    let error = ChatError {
        error: ChatErrorDetail {
            message: "Invalid API key".to_string(),
            type_: "authentication_error".to_string(),
            code: Some("invalid_api_key".to_string()),
        },
    };

    let api_error = map_chat_error_to_api_error(error);

    match api_error {
        ApiError::Api { status, message } => {
            assert_eq!(status, StatusCode::UNAUTHORIZED.as_u16());
            assert_eq!(message, "Invalid API key");
        }
        _ => panic!("Expected ApiError::Api with UNAUTHORIZED status"),
    }
}

#[test]
fn test_server_error_maps_to_500() {
    let error = ChatError {
        error: ChatErrorDetail {
            message: "Internal server error".to_string(),
            type_: "server_error".to_string(),
            code: None,
        },
    };

    let api_error = map_chat_error_to_api_error(error);

    match api_error {
        ApiError::Api { status, message } => {
            assert_eq!(status, StatusCode::INTERNAL_SERVER_ERROR.as_u16());
            assert_eq!(message, "Internal server error");
        }
        _ => panic!("Expected ApiError::Api with INTERNAL_SERVER_ERROR status"),
    }
}

#[test]
fn an_unknown_error_type_maps_to_500() {
    for kind in ["", "api_error", "Rate_limit_error"] {
        let error = ChatError {
            error: ChatErrorDetail {
                message: "m".to_string(),
                type_: kind.to_string(),
                code: None,
            },
        };
        match map_chat_error_to_api_error(error) {
            ApiError::Api { status, message } => {
                assert_eq!(status, StatusCode::INTERNAL_SERVER_ERROR.as_u16());
                assert_eq!(message, "m");
            }
            other => panic!("unexpected {other:?}"),
        }
    }
}

#[test]
fn chat_completions_error_response_maps_correctly() {
    let error = ChatError {
        error: ChatErrorDetail {
            message: "Invalid auth".to_string(),
            type_: "authentication_error".to_string(),
            code: Some("invalid_api_key".to_string()),
        },
    };

    match map_chat_error_to_api_error(error) {
        ApiError::Api { status, .. } => assert_eq!(status, StatusCode::UNAUTHORIZED.as_u16()),
        other => panic!("Expected ApiError::Api with UNAUTHORIZED status, got {other:?}"),
    }
}

#[test]
fn rate_limit_error_maps_correctly() {
    let error = ChatError {
        error: ChatErrorDetail {
            message: "Rate limit exceeded".to_string(),
            type_: "rate_limit_error".to_string(),
            code: Some("rate_limit_exceeded".to_string()),
        },
    };

    match map_chat_error_to_api_error(error) {
        ApiError::RateLimit(msg) => assert_eq!(msg, "Rate limit exceeded"),
        other => panic!("Expected ApiError::RateLimit, got {other:?}"),
    }
}
