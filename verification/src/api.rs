//! The plain response and request shapes of the operator surface. The HTTP
//! layer itself lives outside this crate; these are the values it carries.
use vstd::prelude::*;
use crate::slots::{Booking, Record};
use crate::users::User;

verus! {

/// A generic outcome envelope.
#[derive(Debug)]
pub struct ApiResponse {
    pub success: bool,
    pub message: String,
}

/// A generic error envelope.
#[derive(Debug)]
pub struct ErrorResponse {
    pub error: String,
}

#[derive(Debug)]
pub struct BookingsResponse {
    pub bookings: Vec<Booking>,
}

#[derive(Debug)]
pub struct UsersResponse {
    pub users: Vec<User>,
}

#[derive(Debug)]
pub struct UserResponse {
    pub user: User,
}

#[derive(Debug)]
pub struct BookingResponse {
    pub booking: Booking,
}

/// The legacy broadcast request of the operator surface.
#[derive(Debug)]
pub struct BroadcastRequest {
    pub message: String,
    pub include_users_without_telegram: bool,
}

/// An operator request to annotate a booking.
#[derive(Debug)]
pub struct UpdateBookingRequest {
    pub user_name: Option<String>,
}

/// What a completed file upload reports back.
#[derive(Debug)]
pub struct FileUploadResponse {
    pub success: bool,
    pub message: String,
    pub file_id: Option<String>,
    pub file_type: Option<String>,
}

/// The bookings listing of the operator surface.
pub fn bookings_response(records: &Vec<Record>) -> (r: BookingsResponse)
    ensures
        r.bookings@.len() == records@.len(),
        forall|i: int|
            0 <= i < records@.len() ==> #[trigger] r.bookings@[i] == (Booking {
                slot_id: records@[i].slot_id,
                telegram_id: records@[i].telegram_id,
            }),
{
    let mut bookings: Vec<Booking> = Vec::new();
    let mut i: usize = 0;
    while i < records.len()
        invariant
            i <= records@.len(),
            bookings@.len() == i,
            forall|j: int|
                0 <= j < i ==> #[trigger] bookings@[j] == (Booking {
                    slot_id: records@[j].slot_id,
                    telegram_id: records@[j].telegram_id,
                }),
        decreases records@.len() - i,
    {
        bookings.push(
            Booking { slot_id: records[i].slot_id, telegram_id: records[i].telegram_id },
        );
        i += 1;
    }
    BookingsResponse { bookings }
}

} // verus!
